use blake2::digest::{Update, VariableOutput};
use blake2::Blake2bVar;

use text_fingerprint::checksum::adler32;
use text_fingerprint::minhash::minhash_signature_with_coeffs;
use text_fingerprint::shingle::shingle_checksums;
use text_fingerprint::simhash::simhash64;

fn hamming(a: u64, b: u64) -> u32 {
    (a ^ b).count_ones()
}

fn blake2b64(data: &[u8]) -> u64 {
    let mut hasher = Blake2bVar::new(8).unwrap();
    hasher.update(data);
    let mut out = [0u8; 8];
    hasher.finalize_variable(&mut out).unwrap();
    u64::from_le_bytes(out)
}

#[test]
fn empty_text_simhash_is_zero() {
    assert_eq!(simhash64("", None), 0);
}

#[test]
fn no_qualifying_tokens_simhash_is_zero() {
    // "the" is a stopword, "cat" and "sat" fall below the length floor
    assert_eq!(simhash64("the cat sat", None), 0);
    assert_eq!(simhash64("a b c 123 !!", None), 0);
}

#[test]
fn qualifying_tokens_vote() {
    // "quickly" and "jumped" both pass the filter
    assert_ne!(simhash64("quickly jumped", None), 0);
    assert_ne!(simhash64("quickly jumped", None), simhash64("quickly", None));
}

#[test]
fn zero_token_limit_yields_zero() {
    assert_eq!(simhash64("quickly jumped", Some(0)), 0);
}

#[test]
fn non_ascii_bytes_break_tokens() {
    // each multi-byte character splits the scan; no fragment reaches length 4
    assert_eq!(simhash64("héllo wörld", None), 0);
}

#[test]
fn separators_do_not_matter() {
    assert_eq!(
        simhash64("snake_case1 apple9", None),
        simhash64("snake_case1,,apple9!!", None)
    );
}

#[test]
fn simhash_deterministic() {
    let t = "verification tools prove properties about programs automatically";
    assert_eq!(simhash64(t, None), simhash64(t, None));
}

#[test]
fn minhash_deterministic() {
    let t = "verification tools prove properties about programs automatically";
    let coeffs = vec![(3u64, 11u64), (7, 5)];
    assert_eq!(
        minhash_signature_with_coeffs(t, 4, &coeffs, None),
        minhash_signature_with_coeffs(t, 4, &coeffs, None)
    );
}

#[test]
fn cap_keeps_first_qualifying_tokens_in_scan_order() {
    assert_eq!(
        simhash64("quickly jumped", Some(1)),
        simhash64("quickly", None)
    );
    assert_eq!(
        simhash64("quickly jumped swiftly", Some(2)),
        simhash64("quickly jumped", None)
    );
}

#[test]
fn cap_beyond_token_count_equals_uncapped() {
    let t = "several proper tokens gathered tonight";
    assert_eq!(simhash64(t, Some(100)), simhash64(t, None));
    assert_eq!(simhash64(t, Some(1000)), simhash64(t, Some(usize::MAX)));
}

#[test]
fn single_token_fingerprint_is_its_token_hash() {
    // with one token, each bit's vote carries the sign of that hash bit
    let expected = blake2b64(b"abcdehello");
    assert_eq!(simhash64("abcdehello", None), expected);
    // tokens are lowercased as they are read
    assert_eq!(simhash64("AbCdEhEllO", None), expected);
}

#[test]
fn inserted_stopword_keeps_fingerprint_close() {
    let base = "verification tools prove properties about programs automatically";
    let tweaked = "verification tools prove the properties about programs automatically";
    assert!(hamming(simhash64(base, None), simhash64(tweaked, None)) <= 4);
    let unrelated = "bananas oranges grapes melons apricots cherries plums";
    assert!(hamming(simhash64(base, None), simhash64(unrelated, None)) >= 10);
}

#[test]
fn checksum_known_values() {
    assert_eq!(adler32(b""), 1);
    assert_eq!(adler32(b"abc"), 0x024d0127);
    assert_eq!(adler32(b"xyz"), 0x02d7016c);
    // order sensitivity
    assert_ne!(adler32(b"abc"), adler32(b"cba"));
}

#[test]
fn minhash_text_shorter_than_k_is_sentinel() {
    assert_eq!(
        minhash_signature_with_coeffs("ab", 3, &vec![(1, 0)], None),
        vec![0xFFFF_FFFFu64]
    );
}

#[test]
fn minhash_k_zero_is_sentinel() {
    assert_eq!(
        minhash_signature_with_coeffs("plenty of text around", 0, &vec![(1, 0), (2, 0)], None),
        vec![0xFFFF_FFFFu64, 0xFFFF_FFFF]
    );
}

#[test]
fn whitespace_only_text_never_contributes_shingles() {
    for k in [1usize, 2, 3, 5, 8] {
        let sig = minhash_signature_with_coeffs("   \t \t   ", k, &vec![(3, 7)], None);
        assert_eq!(sig, vec![0xFFFF_FFFFu64]);
        assert!(shingle_checksums("   \t \t   ", k, None).is_empty());
    }
}

#[test]
fn minhash_affine_formula_exact() {
    // one shingle: "xyz" with k = 3 has checksum 47645036
    let sig = minhash_signature_with_coeffs(
        "xyz",
        3,
        &vec![(1, 0), (2, 5), (123456789, 987654321)],
        None,
    );
    assert_eq!(sig, vec![47645036, 95290077, 382700651]);
}

#[test]
fn minhash_product_is_taken_at_full_width() {
    // a * x overflows 64 bits; the modulus must see the exact product
    let sig = minhash_signature_with_coeffs("xyz", 3, &vec![(u64::MAX, 7)], None);
    assert_eq!(sig, vec![2082553449]);
}

#[test]
fn duplicate_windows_collapse() {
    let coeffs = vec![(9u64, 2u64), (4, 1)];
    let a = minhash_signature_with_coeffs("abcabc", 3, &coeffs, None);
    let b = minhash_signature_with_coeffs("abcabcabc", 3, &coeffs, None);
    assert_eq!(a, b);
    let sa: std::collections::HashSet<u32> =
        shingle_checksums("abcabc", 3, None).into_iter().collect();
    let sb: std::collections::HashSet<u32> =
        shingle_checksums("abcabcabc", 3, None).into_iter().collect();
    assert_eq!(sa, sb);
    // three distinct windows, but "bca" and "cab" collide under the
    // checksum, and colliding windows are conflated by design
    assert_eq!(sa.len(), 2);
}

#[test]
fn shingle_cap_truncates_input() {
    let coeffs = vec![(17u64, 3u64)];
    assert_eq!(
        minhash_signature_with_coeffs("abcdef", 3, &coeffs, Some(2)),
        minhash_signature_with_coeffs("abcd", 3, &coeffs, None)
    );
    // an explicit cap of zero lifts the cap
    assert_eq!(
        minhash_signature_with_coeffs("abcdef", 3, &coeffs, Some(0)),
        minhash_signature_with_coeffs("abcdef", 3, &coeffs, None)
    );
}

#[test]
fn char_cap_counts_scalar_values_not_bytes() {
    // four two-byte characters: the cap first cuts to 2 scalar values,
    // then to 2 bytes, leaving the single window "é"
    let coeffs = vec![(1u64, 0u64)];
    let sig = minhash_signature_with_coeffs("éééé", 2, &coeffs, Some(1));
    let x = adler32("é".as_bytes()) as u64;
    assert_eq!(sig, vec![x % 4294967311]);
}

#[test]
fn signature_agreement_tracks_jaccard() {
    let mut t1 = String::new();
    for i in 0..120 {
        t1.push_str(&format!("w{:03} ", i));
    }
    let mut t2 = t1.clone();
    t2.push_str("extra tail content changing some windows ");
    let k = 4;
    let s1: std::collections::HashSet<u32> =
        shingle_checksums(&t1, k, None).into_iter().collect();
    let s2: std::collections::HashSet<u32> =
        shingle_checksums(&t2, k, None).into_iter().collect();
    let inter = s1.intersection(&s2).count() as f64;
    let union = s1.union(&s2).count() as f64;
    let jaccard = inter / union;
    // a fixed pseudo-random coefficient family
    let mut coeffs: Vec<(u64, u64)> = Vec::new();
    let mut state: u64 = 0x243F_6A88_85A3_08D3;
    for _ in 0..256 {
        state = state
            .wrapping_mul(6364136223846793005)
            .wrapping_add(1442695040888963407);
        let a = (state % 4294967311) | 1;
        state = state
            .wrapping_mul(6364136223846793005)
            .wrapping_add(1442695040888963407);
        let b = state % 4294967311;
        coeffs.push((a, b));
    }
    let g1 = minhash_signature_with_coeffs(&t1, k, &coeffs, None);
    let g2 = minhash_signature_with_coeffs(&t2, k, &coeffs, None);
    let matches = g1.iter().zip(g2.iter()).filter(|(x, y)| x == y).count() as f64;
    let est = matches / coeffs.len() as f64;
    assert!((est - jaccard).abs() < 0.2);
}
