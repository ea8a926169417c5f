use vstd::prelude::*;
use vstd::string::StringSliceAdditionalSpecFns;

use crate::shingle::{char_count, lemma_blank_shingle_set_empty, shingle_checksums, spec_effective_cap, spec_shingle_set};

verus! {

/// Value a signature slot keeps when no shingle hash undercuts it.
pub const MINHASH_SENTINEL: u64 = 0xFFFF_FFFF;

/// Modulus of the affine hash family; the smallest prime above 2^32.
pub const MINHASH_PRIME: u64 = 4294967311;

/// One member of the affine hash family: `(a * x + b) mod 4294967311`,
/// with the product taken at full width before the modulus.
pub open spec fn affine_hash(a: u64, b: u64, x: u32) -> u64 {
    (((a * x) + b) % (MINHASH_PRIME as int)) as u64
}

/// Relates one signature slot to the shingle set: the slot is the least
/// affine hash over the set, capped at the sentinel.
pub open spec fn slot_post(shingles: Set<u32>, a: u64, b: u64, v: u64) -> bool {
    &&& v <= MINHASH_SENTINEL
    &&& (v == MINHASH_SENTINEL || exists|x: u32|
        shingles.contains(x) && #[trigger] affine_hash(a, b, x) == v)
    &&& forall|x: u32| shingles.contains(x) ==> v <= #[trigger] affine_hash(a, b, x)
}

/// Relates a whole signature to the input: one slot per coefficient pair,
/// each the least affine hash over the shingle set of `s`, capped at the
/// sentinel.
pub open spec fn minhash_post(
    s: Seq<u8>,
    k: usize,
    coeffs: Seq<(u64, u64)>,
    cap: Option<usize>,
    sig: Seq<u64>,
) -> bool {
    &&& sig.len() == coeffs.len()
    &&& forall|idx: int|
        0 <= idx < coeffs.len() ==> slot_post(
            spec_shingle_set(s, k, cap),
            (#[trigger] coeffs[idx]).0,
            coeffs[idx].1,
            sig[idx],
        )
}

/// The MinHash signature of `text` over `k`-byte shingles: slot `i` is the
/// minimum of `(a_i * x + b_i) mod 4294967311` over every shingle checksum
/// `x`, starting from the sentinel. With no qualifying shingle (zero `k`,
/// an input shorter than `k` scalar values, or nothing but blank windows)
/// every slot keeps the sentinel.
pub fn minhash_signature_with_coeffs(
    text: &str,
    k: usize,
    coeffs: &Vec<(u64, u64)>,
    max_shingles: Option<usize>,
) -> (sig: Vec<u64>)
    ensures
        minhash_post(
            text.spec_bytes(),
            k,
            coeffs@,
            spec_effective_cap(max_shingles),
            sig@,
        ),
{
    let ghost s = text.spec_bytes();
    let ghost gcap = spec_effective_cap(max_shingles);
    let ghost sset = spec_shingle_set(s, k, gcap);

    let shingles = shingle_checksums(text, k, max_shingles);

    let mut sig: Vec<u64> = Vec::new();
    let mut j: usize = 0;
    while j < coeffs.len()
        invariant
            j <= coeffs@.len(),
            sig@.len() == j as int,
            forall|idx: int| 0 <= idx < j ==> sig@[idx] == MINHASH_SENTINEL,
        decreases coeffs@.len() - j,
    {
        sig.push(MINHASH_SENTINEL);
        j = j + 1;
    }

    proof {
        assert(shingles@.take(0) =~= Seq::<u32>::empty());
        assert forall|idx: int| 0 <= idx < coeffs@.len() implies slot_post(
            shingles@.take(0).to_set(),
            coeffs@[idx].0,
            coeffs@[idx].1,
            sig@[idx],
        ) by {
            assert forall|x: u32| !(#[trigger] shingles@.take(0).to_set().contains(x)) by {
                assert(!shingles@.take(0).contains(x));
            }
        }
    }

    let mut si: usize = 0;
    while si < shingles.len()
        invariant
            si <= shingles@.len(),
            sig@.len() == coeffs@.len(),
            forall|idx: int|
                0 <= idx < coeffs@.len() ==> slot_post(
                    shingles@.take(si as int).to_set(),
                    (#[trigger] coeffs@[idx]).0,
                    coeffs@[idx].1,
                    sig@[idx],
                ),
        decreases shingles@.len() - si,
    {
        let x = shingles[si];
        let ghost old_set = shingles@.take(si as int).to_set();
        let ghost new_set = shingles@.take(si as int + 1).to_set();
        proof {
            assert(shingles@.take(si as int + 1) =~= shingles@.take(si as int).push(x));
            shingles@.take(si as int).lemma_push_to_set_commute(x);
            assert(new_set == old_set.insert(x));
        }
        let mut ci: usize = 0;
        while ci < coeffs.len()
            invariant
                ci <= coeffs@.len(),
                sig@.len() == coeffs@.len(),
                new_set == old_set.insert(x),
                forall|idx: int|
                    0 <= idx < ci ==> slot_post(
                        new_set,
                        (#[trigger] coeffs@[idx]).0,
                        coeffs@[idx].1,
                        sig@[idx],
                    ),
                forall|idx: int|
                    ci <= idx < coeffs@.len() ==> slot_post(
                        old_set,
                        (#[trigger] coeffs@[idx]).0,
                        coeffs@[idx].1,
                        sig@[idx],
                    ),
            decreases coeffs@.len() - ci,
        {
            let pair = coeffs[ci];
            let a = pair.0;
            let b = pair.1;
            proof {
                assert((a as int) * (x as int) <= (u64::MAX as int) * (u32::MAX as int))
                    by (nonlinear_arith)
                    requires
                        a <= u64::MAX,
                        x <= u32::MAX,
                ;
            }
            let prod: u128 = (a as u128) * (x as u128) + (b as u128);
            let v: u64 = (prod % (MINHASH_PRIME as u128)) as u64;
            proof {
                assert(v == affine_hash(a, b, x));
            }
            let ghost old_v = sig@[ci as int];
            if v < sig[ci] {
                sig[ci] = v;
            }
            proof {
                let cur = sig@[ci as int];
                assert(slot_post(new_set, a, b, cur)) by {
                    if v < old_v {
                        assert(cur == v);
                        assert(new_set.contains(x));
                        assert forall|y: u32| new_set.contains(y) implies cur <= affine_hash(
                            a,
                            b,
                            y,
                        ) by {
                            if old_set.contains(y) {
                                assert(old_v <= affine_hash(a, b, y));
                            } else {
                                assert(y == x);
                            }
                        }
                    } else {
                        assert(cur == old_v);
                        if cur != MINHASH_SENTINEL {
                            let w = choose|w: u32|
                                old_set.contains(w) && #[trigger] affine_hash(a, b, w) == old_v;
                            assert(new_set.contains(w));
                        }
                        assert forall|y: u32| new_set.contains(y) implies cur <= affine_hash(
                            a,
                            b,
                            y,
                        ) by {
                            if old_set.contains(y) {
                            } else {
                                assert(y == x);
                                assert(cur <= v);
                            }
                        }
                    }
                }
            }
            ci = ci + 1;
        }
        si = si + 1;
    }
    proof {
        assert(shingles@.take(shingles@.len() as int) =~= shingles@);
        assert(shingles@.to_set() == sset);
    }
    sig
}

/// Determinism: the contract pins every slot, so two signatures for the
/// same input, width, coefficients and cap are identical.
pub proof fn lemma_minhash_deterministic(
    s: Seq<u8>,
    k: usize,
    coeffs: Seq<(u64, u64)>,
    cap: Option<usize>,
    sig1: Seq<u64>,
    sig2: Seq<u64>,
)
    requires
        minhash_post(s, k, coeffs, cap, sig1),
        minhash_post(s, k, coeffs, cap, sig2),
    ensures
        sig1 == sig2,
{
    assert forall|idx: int| 0 <= idx < coeffs.len() implies sig1[idx] == sig2[idx] by {
        lemma_slot_unique(spec_shingle_set(s, k, cap), coeffs[idx].0, coeffs[idx].1, sig1[idx], sig2[idx]);
    }
    assert(sig1 =~= sig2);
}

/// A slot's characterisation has exactly one solution.
pub proof fn lemma_slot_unique(shingles: Set<u32>, a: u64, b: u64, v1: u64, v2: u64)
    requires
        slot_post(shingles, a, b, v1),
        slot_post(shingles, a, b, v2),
    ensures
        v1 == v2,
{
    if v1 < v2 {
        let x = choose|x: u32| shingles.contains(x) && #[trigger] affine_hash(a, b, x) == v1;
        assert(v2 <= affine_hash(a, b, x));
    }
    if v2 < v1 {
        let x = choose|x: u32| shingles.contains(x) && #[trigger] affine_hash(a, b, x) == v2;
        assert(v1 <= affine_hash(a, b, x));
    }
}

/// With no shingle at all, a slot can only be the sentinel.
pub proof fn lemma_empty_shingles_sentinel(shingles: Set<u32>, a: u64, b: u64, v: u64)
    requires
        shingles == Set::<u32>::empty(),
        slot_post(shingles, a, b, v),
    ensures
        v == MINHASH_SENTINEL,
{
    if v != MINHASH_SENTINEL {
        let x = choose|x: u32| shingles.contains(x) && #[trigger] affine_hash(a, b, x) == v;
    }
}

/// Whitespace-only exclusion: an input whose bytes are all at most 32 has
/// an empty shingle set, so its whole signature is the sentinel, whatever
/// `k` and the cap.
pub proof fn lemma_blank_input_sentinel(
    s: Seq<u8>,
    k: usize,
    coeffs: Seq<(u64, u64)>,
    cap: Option<usize>,
    sig: Seq<u64>,
)
    requires
        forall|i: int| 0 <= i < s.len() ==> s[i] <= 32,
        minhash_post(s, k, coeffs, cap, sig),
    ensures
        forall|idx: int| 0 <= idx < sig.len() ==> sig[idx] == MINHASH_SENTINEL,
{
    lemma_blank_shingle_set_empty(s, k, cap);
    assert forall|idx: int| 0 <= idx < sig.len() implies sig[idx] == MINHASH_SENTINEL by {
        lemma_empty_shingles_sentinel(
            spec_shingle_set(s, k, cap),
            coeffs[idx].0,
            coeffs[idx].1,
            sig[idx],
        );
    }
}

/// Degenerate widths: with `k` zero, or an input holding fewer scalar
/// values than `k`, every slot is the sentinel.
pub proof fn lemma_degenerate_sentinel(
    s: Seq<u8>,
    k: usize,
    coeffs: Seq<(u64, u64)>,
    cap: Option<usize>,
    sig: Seq<u64>,
)
    requires
        k == 0 || char_count(s) < k,
        minhash_post(s, k, coeffs, cap, sig),
    ensures
        forall|idx: int| 0 <= idx < sig.len() ==> sig[idx] == MINHASH_SENTINEL,
{
    assert forall|idx: int| 0 <= idx < sig.len() implies sig[idx] == MINHASH_SENTINEL by {
        lemma_empty_shingles_sentinel(
            spec_shingle_set(s, k, cap),
            coeffs[idx].0,
            coeffs[idx].1,
            sig[idx],
        );
    }
}

/// The signature depends only on the shingle set: inputs with the same set
/// (whatever their window order or duplicate windows) sign alike under the
/// same coefficients.
pub proof fn lemma_signature_depends_on_shingle_set(
    s1: Seq<u8>,
    s2: Seq<u8>,
    k1: usize,
    k2: usize,
    coeffs: Seq<(u64, u64)>,
    cap1: Option<usize>,
    cap2: Option<usize>,
    sig1: Seq<u64>,
    sig2: Seq<u64>,
)
    requires
        spec_shingle_set(s1, k1, cap1) == spec_shingle_set(s2, k2, cap2),
        minhash_post(s1, k1, coeffs, cap1, sig1),
        minhash_post(s2, k2, coeffs, cap2, sig2),
    ensures
        sig1 == sig2,
{
    assert forall|idx: int| 0 <= idx < coeffs.len() implies sig1[idx] == sig2[idx] by {
        lemma_slot_unique(
            spec_shingle_set(s1, k1, cap1),
            coeffs[idx].0,
            coeffs[idx].1,
            sig1[idx],
            sig2[idx],
        );
    }
    assert(sig1 =~= sig2);
}

} // verus!


