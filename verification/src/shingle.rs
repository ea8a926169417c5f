use vstd::prelude::*;
use vstd::slice::slice_subrange;
use vstd::string::StringSliceAdditionalSpecFns;
use vstd::utf8::{char_is_scalar, encode_scalar, encode_utf8, has_width_1_encoding, has_width_2_encoding, has_width_3_encoding, is_continuation_byte, is_scalar, leading_byte_width_2, leading_byte_width_3, leading_byte_width_4, second_last_continuation_byte, third_last_continuation_byte};

use crate::checksum::{adler32, spec_adler32};

verus! {

/// Shingle cap applied when the caller passes no explicit limit.
pub const DEFAULT_MINHASH_MAX_SHINGLES: usize = 20000;

/// Cap normalisation: no argument means the default cap, and an explicit
/// zero means no cap at all.
pub open spec fn spec_effective_cap(max_shingles: Option<usize>) -> Option<usize> {
    match max_shingles {
        None => Some(DEFAULT_MINHASH_MAX_SHINGLES),
        Some(v) => if v == 0 {
            None
        } else {
            Some(v)
        },
    }
}

pub open spec fn sat_add(a: usize, b: usize) -> usize {
    if a + b > usize::MAX {
        usize::MAX
    } else {
        (a + b) as usize
    }
}

/// Number of Unicode scalar values a valid UTF-8 byte sequence encodes:
/// one per byte that is not a continuation byte.
pub open spec fn char_count(s: Seq<u8>) -> int
    decreases s.len(),
{
    if s.len() == 0 {
        0
    } else {
        char_count(s.drop_last()) + (if is_continuation_byte(s.last()) {
            0int
        } else {
            1int
        })
    }
}

/// First index at or after `i` that does not hold a continuation byte.
pub open spec fn cont_end(s: Seq<u8>, i: int) -> int
    decreases s.len() - i,
{
    if i < 0 {
        0
    } else if i >= s.len() {
        s.len() as int
    } else if is_continuation_byte(s[i]) {
        cont_end(s, i + 1)
    } else {
        i
    }
}

/// Byte length of the first `n` scalar values of `s` counted from `i`:
/// each scalar value is one leading byte followed by its continuation
/// bytes.
pub open spec fn char_cut(s: Seq<u8>, i: int, n: int) -> int
    decreases n,
{
    if n <= 0 || i < 0 || i >= s.len() {
        if i < 0 {
            0
        } else if i > s.len() {
            s.len() as int
        } else {
            i
        }
    } else {
        char_cut(s, cont_end(s, i + 1), n - 1)
    }
}

pub proof fn lemma_cont_end_bounds(s: Seq<u8>, i: int)
    requires
        0 <= i <= s.len(),
    ensures
        i <= cont_end(s, i) <= s.len(),
    decreases s.len() - i,
{
    if i < s.len() && is_continuation_byte(s[i]) {
        lemma_cont_end_bounds(s, i + 1);
    }
}

pub proof fn lemma_char_cut_bounds(s: Seq<u8>, i: int, n: int)
    requires
        0 <= i <= s.len(),
    ensures
        i <= char_cut(s, i, n) <= s.len(),
    decreases n,
{
    if n > 0 && i < s.len() {
        lemma_cont_end_bounds(s, i + 1);
        lemma_char_cut_bounds(s, cont_end(s, i + 1), n - 1);
    }
}

/// Counts the scalar values of `bytes` by skipping continuation bytes.
pub fn count_chars(bytes: &[u8]) -> (r: usize)
    ensures
        r as int == char_count(bytes@),
{
    let mut count: usize = 0;
    let mut i: usize = 0;
    while i < bytes.len()
        invariant
            i <= bytes@.len(),
            count <= i,
            count as int == char_count(bytes@.take(i as int)),
        decreases bytes@.len() - i,
    {
        proof {
            assert(bytes@.take(i as int + 1).drop_last() =~= bytes@.take(i as int));
            assert(bytes@.take(i as int + 1).last() == bytes@[i as int]);
        }
        let b = bytes[i];
        if !(b >= 128 && b <= 191) {
            count = count + 1;
        }
        i = i + 1;
    }
    proof {
        assert(bytes@.take(i as int) =~= bytes@);
    }
    count
}

/// Byte index where the prefix of `bytes` holding its first `n` scalar
/// values ends.
pub fn char_cut_index(bytes: &[u8], n: usize) -> (r: usize)
    ensures
        r as int == char_cut(bytes@, 0, n as int),
        r <= bytes@.len(),
{
    let ghost s = bytes@;
    let mut i: usize = 0;
    let mut rem: usize = n;
    while i < bytes.len() && rem > 0
        invariant
            bytes@ == s,
            i <= s.len(),
            char_cut(s, 0, n as int) == char_cut(s, i as int, rem as int),
        decreases s.len() - i,
    {
        let ghost i0 = i as int;
        let ghost rem0 = rem as int;
        i = i + 1;
        while i < bytes.len() && bytes[i] >= 128 && bytes[i] <= 191
            invariant
                bytes@ == s,
                i0 + 1 <= i as int <= s.len(),
                cont_end(s, i0 + 1) == cont_end(s, i as int),
            decreases s.len() - i,
        {
            i = i + 1;
        }
        proof {
            assert(cont_end(s, i as int) == i as int);
            lemma_cont_end_bounds(s, i0 + 1);
            assert(char_cut(s, i0, rem0) == char_cut(s, i as int, rem0 - 1));
        }
        rem = rem - 1;
    }
    proof {
        assert(char_cut(s, i as int, rem as int) == i as int);
    }
    i
}

/// The cap plus `k - 1`, saturating: the length that keeps exactly `cap`
/// width-`k` windows.
pub open spec fn spec_limit_plus(limit: usize, k: usize) -> usize {
    sat_add(
        limit,
        if k == 0 {
            0
        } else {
            (k - 1) as usize
        },
    )
}

/// The input cut to its first `limit + k - 1` scalar values when it holds
/// more than that many; otherwise unchanged.
pub open spec fn spec_char_truncated(s: Seq<u8>, k: usize, cap: Option<usize>) -> Seq<u8> {
    match cap {
        None => s,
        Some(limit) => {
            if char_count(s) > spec_limit_plus(limit, k) {
                s.take(char_cut(s, 0, spec_limit_plus(limit, k) as int))
            } else {
                s
            }
        },
    }
}

/// A second cut, on bytes: when the number of width-`k` byte windows still
/// exceeds the cap, the bytes are cut to `limit + k - 1`.
pub open spec fn spec_byte_truncated(t: Seq<u8>, k: usize, cap: Option<usize>) -> Seq<u8> {
    match cap {
        None => t,
        Some(limit) => {
            let total = if t.len() > k {
                t.len() - k + 1
            } else {
                1int
            };
            if total > limit {
                let byte_limit = spec_limit_plus(limit, k);
                if t.len() > byte_limit {
                    t.take(byte_limit as int)
                } else {
                    t
                }
            } else {
                t
            }
        },
    }
}

/// The bytes that the windows are drawn from, after both truncations.
pub open spec fn spec_shingle_bytes(s: Seq<u8>, k: usize, cap: Option<usize>) -> Seq<u8> {
    spec_byte_truncated(spec_char_truncated(s, k, cap), k, cap)
}

/// Whether a window carries any printable signal: some byte above 32.
pub open spec fn has_signal(w: Seq<u8>) -> bool {
    exists|j: int| 0 <= j < w.len() && w[j] > 32
}

/// The checksums of the qualifying width-`k` windows that start before
/// offset `m`.
pub open spec fn window_checksums_upto(t: Seq<u8>, k: usize, m: int) -> Set<u32> {
    Set::new(
        |c: u32|
            exists|i: int|
                0 <= i < m && i + k <= t.len() && has_signal(#[trigger] t.subrange(i, i + k))
                    && spec_adler32(t.subrange(i, i + k)) == c,
    )
}

/// The deduplicated checksums of all qualifying windows of `t`.
pub open spec fn spec_window_checksums(t: Seq<u8>, k: usize) -> Set<u32> {
    window_checksums_upto(t, k, t.len() - k + 1)
}

/// The shingle set of `s` under width `k` and cap `cap`: empty when `k` is
/// zero or `s` holds fewer scalar values than `k`, else the checksums of
/// the qualifying windows of the truncated bytes.
pub open spec fn spec_shingle_set(s: Seq<u8>, k: usize, cap: Option<usize>) -> Set<u32> {
    if k == 0 || char_count(s) < k {
        Set::empty()
    } else {
        spec_window_checksums(spec_shingle_bytes(s, k, cap), k)
    }
}

fn has_signal_exec(w: &[u8]) -> (r: bool)
    ensures
        r == has_signal(w@),
{
    let mut j: usize = 0;
    let mut found = false;
    while j < w.len()
        invariant
            j <= w@.len(),
            found == exists|q: int| 0 <= q < j && w@[q] > 32,
        decreases w@.len() - j,
    {
        if w[j] > 32 {
            found = true;
            proof {
                assert(w@[j as int] > 32);
            }
        }
        j = j + 1;
    }
    found
}

fn vec_contains(v: &Vec<u32>, x: u32) -> (r: bool)
    ensures
        r == v@.contains(x),
{
    let mut j: usize = 0;
    while j < v.len()
        invariant
            j <= v@.len(),
            forall|q: int| 0 <= q < j ==> v@[q] != x,
        decreases v@.len() - j,
    {
        if v[j] == x {
            return true;
        }
        j = j + 1;
    }
    false
}

/// The shingle set of `text` as a vector of distinct checksums: every
/// width-`k` byte window of the (truncated) input that holds a byte above
/// 32 contributes its checksum once. The cap defaults to 20000 windows;
/// an explicit cap of zero lifts it.
pub fn shingle_checksums(text: &str, k: usize, max_shingles: Option<usize>) -> (r: Vec<u32>)
    ensures
        r@.to_set() == spec_shingle_set(text.spec_bytes(), k, spec_effective_cap(max_shingles)),
        forall|p: int, q: int| 0 <= p < q < r@.len() ==> r@[p] != r@[q],
{
    let ghost s = text.spec_bytes();
    let ghost gcap = spec_effective_cap(max_shingles);
    let bytes: &[u8] = text.as_bytes();

    if k == 0 {
        proof {
            assert(Seq::<u32>::empty().to_set() =~= Set::<u32>::empty());
        }
        return Vec::new();
    }
    let cap: Option<usize> = match max_shingles {
        None => Some(DEFAULT_MINHASH_MAX_SHINGLES),
        Some(v) => if v == 0 {
            None
        } else {
            Some(v)
        },
    };
    proof {
        assert(cap == gcap);
    }

    let cc = count_chars(bytes);
    if cc < k {
        proof {
            assert(Seq::<u32>::empty().to_set() =~= Set::<u32>::empty());
        }
        return Vec::new();
    }

    let km1 = k - 1;
    let mut end: usize = bytes.len();
    match cap {
        Some(limit) => {
            let char_limit = if limit > usize::MAX - km1 {
                usize::MAX
            } else {
                limit + km1
            };
            proof {
                assert(char_limit == spec_limit_plus(limit, k));
            }
            if cc > char_limit {
                end = char_cut_index(bytes, char_limit);
            }
        },
        None => {},
    }
    let ghost t1 = spec_char_truncated(s, k, gcap);
    proof {
        assert(t1 =~= s.take(end as int));
    }

    let mut end2: usize = end;
    match cap {
        Some(limit) => {
            let total = if end > k {
                end - k + 1
            } else {
                1
            };
            if total > limit {
                let byte_limit = if limit > usize::MAX - km1 {
                    usize::MAX
                } else {
                    limit + km1
                };
                if end2 > byte_limit {
                    end2 = byte_limit;
                }
            }
        },
        None => {},
    }
    let ghost t2 = spec_shingle_bytes(s, k, gcap);
    proof {
        assert(t2 =~= s.take(end2 as int));
    }

    let mut out: Vec<u32> = Vec::new();
    proof {
        assert(out@.to_set() =~= window_checksums_upto(t2, k, 0));
    }
    if end2 >= k {
        let mut i: usize = 0;
        while i <= end2 - k
            invariant
                bytes@ == s,
                1 <= k <= end2,
                end2 <= s.len(),
                i <= end2 - k + 1,
                t2 == s.take(end2 as int),
                out@.to_set() == window_checksums_upto(t2, k, i as int),
                forall|p: int, q: int| 0 <= p < q < out@.len() ==> out@[p] != out@[q],
            decreases end2 - k + 1 - i,
        {
            let w = slice_subrange(bytes, i, i + k);
            let ghost m = i as int;
            let ghost win = t2.subrange(m, m + k);
            proof {
                assert(w@ =~= win);
            }
            let sig = has_signal_exec(w);
            if sig {
                let c = adler32(w);
                let ghost old_out = out@;
                let dup = vec_contains(&out, c);
                if !dup {
                    out.push(c);
                }
                proof {
                    if !dup {
                        old_out.lemma_push_to_set_commute(c);
                    }
                    assert(out@.to_set() =~= window_checksums_upto(t2, k, m + 1)) by {
                        assert forall|c2: u32|
                            window_checksums_upto(t2, k, m + 1).contains(c2) implies out@.to_set()
                            .contains(c2) by {
                            let i0 = choose|i0: int|
                                0 <= i0 < m + 1 && i0 + k <= t2.len() && has_signal(#[trigger] t2.subrange(i0, i0 + k)) && spec_adler32(t2.subrange(i0, i0 + k)) == c2;
                            if i0 < m {
                                assert(window_checksums_upto(t2, k, m).contains(c2));
                                assert(old_out.to_set().contains(c2));
                                if !dup {
                                    assert(out@.to_set() == old_out.to_set().insert(c));
                                }
                            } else {
                                assert(c2 == c);
                                if !dup {
                                    assert(out@.to_set() == old_out.to_set().insert(c));
                                } else {
                                    assert(old_out.contains(c));
                                }
                            }
                        }
                        assert forall|c2: u32|
                            out@.to_set().contains(c2) implies window_checksums_upto(
                            t2,
                            k,
                            m + 1,
                        ).contains(c2) by {
                            if !dup {
                                assert(out@.to_set() == old_out.to_set().insert(c));
                            }
                            if old_out.to_set().contains(c2) {
                                assert(window_checksums_upto(t2, k, m).contains(c2));
                                let i0 = choose|i0: int|
                                    0 <= i0 < m && i0 + k <= t2.len() && has_signal(#[trigger] t2.subrange(i0, i0 + k)) && spec_adler32(t2.subrange(i0, i0 + k)) == c2;
                                assert(0 <= i0 < m + 1);
                            } else {
                                assert(c2 == c);
                                assert(has_signal(t2.subrange(m, m + k)));
                                assert(spec_adler32(t2.subrange(m, m + k)) == c2);
                            }
                        }
                    }
                }
            } else {
                proof {
                    assert(out@.to_set() =~= window_checksums_upto(t2, k, m + 1)) by {
                        assert forall|c2: u32|
                            window_checksums_upto(t2, k, m + 1).contains(c2) implies out@.to_set()
                            .contains(c2) by {
                            let i0 = choose|i0: int|
                                0 <= i0 < m + 1 && i0 + k <= t2.len() && has_signal(#[trigger] t2.subrange(i0, i0 + k)) && spec_adler32(t2.subrange(i0, i0 + k)) == c2;
                            assert(i0 < m);
                            assert(window_checksums_upto(t2, k, m).contains(c2));
                        }
                        assert forall|c2: u32|
                            out@.to_set().contains(c2) implies window_checksums_upto(
                            t2,
                            k,
                            m + 1,
                        ).contains(c2) by {
                            assert(window_checksums_upto(t2, k, m).contains(c2));
                            let i0 = choose|i0: int|
                                0 <= i0 < m && i0 + k <= t2.len() && has_signal(#[trigger] t2.subrange(i0, i0 + k)) && spec_adler32(t2.subrange(i0, i0 + k)) == c2;
                            assert(0 <= i0 < m + 1);
                        }
                    }
                }
            }
            i = i + 1;
        }
        proof {
            assert(i as int == t2.len() - k + 1);
            assert(spec_shingle_set(s, k, gcap) == spec_window_checksums(t2, k));
        }
    } else {
        proof {
            assert(t2.len() - k + 1 <= 0);
            assert(spec_window_checksums(t2, k) =~= Set::<u32>::empty()) by {
                assert forall|c2: u32|
                    !spec_window_checksums(t2, k).contains(c2) by {
                }
            }
            assert(out@.to_set() =~= Set::<u32>::empty());
        }
    }
    out
}

/// A blank input (every byte at most 32: spaces, tabs, controls) yields no
/// shingle at any width and under any cap.
pub proof fn lemma_blank_shingle_set_empty(s: Seq<u8>, k: usize, cap: Option<usize>)
    requires
        forall|i: int| 0 <= i < s.len() ==> s[i] <= 32,
    ensures
        spec_shingle_set(s, k, cap) == Set::<u32>::empty(),
{
    if k == 0 || char_count(s) < k {
    } else {
        let t1 = spec_char_truncated(s, k, cap);
        let t2 = spec_shingle_bytes(s, k, cap);
        if cap is Some {
            lemma_char_cut_bounds(s, 0, spec_limit_plus(cap->Some_0, k) as int);
        }
        assert(forall|i: int| 0 <= i < t1.len() ==> t1[i] <= 32);
        assert(forall|i: int| 0 <= i < t2.len() ==> t2[i] <= 32);
        assert(spec_window_checksums(t2, k) =~= Set::<u32>::empty()) by {
            assert forall|c: u32| !spec_window_checksums(t2, k).contains(c) by {
                if spec_window_checksums(t2, k).contains(c) {
                    let i0 = choose|i0: int|
                        0 <= i0 < t2.len() - k + 1 && i0 + k <= t2.len() && has_signal(
                            #[trigger] t2.subrange(i0, i0 + k),
                        ) && spec_adler32(t2.subrange(i0, i0 + k)) == c;
                    let w = t2.subrange(i0, i0 + k);
                    let j = choose|j: int| 0 <= j < w.len() && w[j] > 32;
                    assert(t2[i0 + j] > 32);
                }
            }
        }
    }
}

proof fn lemma_char_count_concat(a: Seq<u8>, b: Seq<u8>)
    ensures
        char_count(a + b) == char_count(a) + char_count(b),
    decreases b.len(),
{
    if b.len() == 0 {
        assert(a + b =~= a);
    } else {
        lemma_char_count_concat(a, b.drop_last());
        assert((a + b).drop_last() =~= a + b.drop_last());
        assert((a + b).last() == b.last());
    }
}

proof fn lemma_char_count_encode_scalar(c: u32)
    requires
        is_scalar(c),
    ensures
        char_count(encode_scalar(c)) == 1,
{
    reveal_with_fuel(char_count, 6);
    let e = encode_scalar(c);
    assert((c & 0x7F) <= 0x7F) by (bit_vector);
    assert(0xC0u8 | (((c >> 6) & 0x1F) as u8) >= 0xC0) by (bit_vector);
    assert(0xE0u8 | (((c >> 12) & 0x0F) as u8) >= 0xC0) by (bit_vector);
    assert(0xF0u8 | (((c >> 18) & 0x7) as u8) >= 0xC0) by (bit_vector);
    assert(0x80 <= (0x80u8 | ((c & 0x3F) as u8)) <= 0xBF) by (bit_vector);
    assert(0x80 <= (0x80u8 | (((c >> 6) & 0x3F) as u8)) <= 0xBF) by (bit_vector);
    assert(0x80 <= (0x80u8 | (((c >> 12) & 0x3F) as u8)) <= 0xBF) by (bit_vector);
    if has_width_1_encoding(c) {
        assert(e.drop_last() =~= Seq::<u8>::empty());
    } else if has_width_2_encoding(c) {
        assert(e.drop_last() =~= seq![leading_byte_width_2(c)]);
        assert(e.drop_last().drop_last() =~= Seq::<u8>::empty());
    } else if has_width_3_encoding(c) {
        assert(e.drop_last() =~= seq![leading_byte_width_3(c), second_last_continuation_byte(c)]);
        assert(e.drop_last().drop_last() =~= seq![leading_byte_width_3(c)]);
        assert(e.drop_last().drop_last().drop_last() =~= Seq::<u8>::empty());
    } else {
        assert(e.drop_last() =~= seq![
            leading_byte_width_4(c),
            third_last_continuation_byte(c),
            second_last_continuation_byte(c),
        ]);
        assert(e.drop_last().drop_last() =~= seq![
            leading_byte_width_4(c),
            third_last_continuation_byte(c),
        ]);
        assert(e.drop_last().drop_last().drop_last() =~= seq![leading_byte_width_4(c)]);
        assert(e.drop_last().drop_last().drop_last().drop_last() =~= Seq::<u8>::empty());
    }
}

proof fn lemma_char_count_matches_chars(chars: Seq<char>)
    ensures
        char_count(encode_utf8(chars)) == chars.len(),
    decreases chars.len(),
{
    if chars.len() > 0 {
        char_is_scalar(chars[0]);
        lemma_char_count_encode_scalar(chars[0] as u32);
        lemma_char_count_concat(encode_scalar(chars[0] as u32), encode_utf8(chars.drop_first()));
        lemma_char_count_matches_chars(chars.drop_first());
    }
}

/// The byte-level scalar count used by the contracts agrees with the
/// character view of the input: a UTF-8 encoding holds exactly one
/// non-continuation byte per character.
pub proof fn lemma_char_count_of_str(s: &str)
    ensures
        char_count(s.spec_bytes()) == s@.len(),
{
    lemma_char_count_matches_chars(s@);
}

/// Shape of a single scalar's encoding: one leading byte, then only
/// continuation bytes.
proof fn lemma_encode_scalar_shape(c: u32)
    requires
        is_scalar(c),
    ensures
        1 <= encode_scalar(c).len() <= 4,
        !is_continuation_byte(encode_scalar(c)[0]),
        forall|j: int|
            1 <= j < encode_scalar(c).len() ==> is_continuation_byte(#[trigger] encode_scalar(c)[j]),
{
    assert((c & 0x7F) <= 0x7F) by (bit_vector);
    assert(0xC0u8 | (((c >> 6) & 0x1F) as u8) >= 0xC0) by (bit_vector);
    assert(0xE0u8 | (((c >> 12) & 0x0F) as u8) >= 0xC0) by (bit_vector);
    assert(0xF0u8 | (((c >> 18) & 0x7) as u8) >= 0xC0) by (bit_vector);
    assert(0x80 <= (0x80u8 | ((c & 0x3F) as u8)) <= 0xBF) by (bit_vector);
    assert(0x80 <= (0x80u8 | (((c >> 6) & 0x3F) as u8)) <= 0xBF) by (bit_vector);
    assert(0x80 <= (0x80u8 | (((c >> 12) & 0x3F) as u8)) <= 0xBF) by (bit_vector);
}

/// `cont_end` stops exactly at the first non-continuation byte.
proof fn lemma_cont_end_stops(s: Seq<u8>, i: int, j: int)
    requires
        0 <= i <= j <= s.len(),
        forall|q: int| i <= q < j ==> is_continuation_byte(#[trigger] s[q]),
        j == s.len() || !is_continuation_byte(s[j]),
    ensures
        cont_end(s, i) == j,
    decreases j - i,
{
    if i < j {
        lemma_cont_end_stops(s, i + 1, j);
    }
}

proof fn lemma_cont_end_shift(a: Seq<u8>, b: Seq<u8>, i: int)
    requires
        0 <= i <= b.len(),
    ensures
        cont_end(a + b, a.len() + i) == a.len() + cont_end(b, i),
    decreases b.len() - i,
{
    if i < b.len() {
        assert((a + b)[a.len() + i] == b[i]);
        if is_continuation_byte(b[i]) {
            lemma_cont_end_shift(a, b, i + 1);
        }
    }
}

proof fn lemma_char_cut_shift(a: Seq<u8>, b: Seq<u8>, i: int, n: int)
    requires
        0 <= i <= b.len(),
    ensures
        char_cut(a + b, a.len() + i, n) == a.len() + char_cut(b, i, n),
    decreases n,
{
    if n <= 0 || i >= b.len() {
    } else {
        assert((a + b)[a.len() + i] == b[i]);
        lemma_cont_end_shift(a, b, i + 1);
        lemma_cont_end_bounds(b, i + 1);
        lemma_char_cut_shift(a, b, cont_end(b, i + 1), n - 1);
    }
}

/// Cutting the bytes at `char_cut` keeps exactly the first `n` characters:
/// the byte prefix is the encoding of the character prefix.
pub proof fn lemma_char_cut_matches_chars(chars: Seq<char>, n: int)
    requires
        0 <= n <= chars.len(),
    ensures
        encode_utf8(chars).take(char_cut(encode_utf8(chars), 0, n)) == encode_utf8(chars.take(n)),
    decreases n,
{
    let s = encode_utf8(chars);
    if n == 0 {
        assert(chars.take(0) =~= Seq::<char>::empty());
        assert(s.take(0) =~= encode_utf8(chars.take(0)));
    } else {
        let c0 = chars[0] as u32;
        char_is_scalar(chars[0]);
        let e0 = encode_scalar(c0);
        let rest = encode_utf8(chars.drop_first());
        assert(s == e0 + rest);
        lemma_encode_scalar_shape(c0);
        assert forall|q: int| 1 <= q < e0.len() implies is_continuation_byte(#[trigger] s[q]) by {
            assert(s[q] == e0[q]);
        }
        if rest.len() > 0 {
            assert(chars.drop_first().len() > 0);
            char_is_scalar(chars.drop_first()[0]);
            lemma_encode_scalar_shape(chars.drop_first()[0] as u32);
            assert(rest[0] == encode_scalar(chars.drop_first()[0] as u32)[0]);
            assert(s[e0.len() as int] == rest[0]);
        }
        lemma_cont_end_stops(s, 1, e0.len() as int);
        assert(char_cut(s, 0, n) == char_cut(s, e0.len() as int, n - 1));
        lemma_char_cut_shift(e0, rest, 0, n - 1);
        assert(char_cut(s, 0, n) == e0.len() + char_cut(rest, 0, n - 1));
        lemma_char_cut_matches_chars(chars.drop_first(), n - 1);
        lemma_char_cut_bounds(rest, 0, n - 1);
        let cr = char_cut(rest, 0, n - 1);
        assert(s.take(e0.len() + cr) =~= e0 + rest.take(cr));
        assert(chars.take(n)[0] == chars[0]);
        assert(chars.take(n).drop_first() =~= chars.drop_first().take(n - 1));
        assert(encode_utf8(chars.take(n)) == encode_scalar(
            chars.take(n)[0] as u32,
        ) + encode_utf8(chars.take(n).drop_first()));
    }
}

/// The two halves of the truncation story for a `&str`: the byte-level
/// scalar count is the character count, and the byte-level cut keeps the
/// encoding of the first `n` characters.
pub proof fn lemma_char_cut_of_str(s: &str, n: int)
    requires
        0 <= n <= s@.len(),
    ensures
        s.spec_bytes().take(char_cut(s.spec_bytes(), 0, n)) == encode_utf8(s@.take(n)),
{
    lemma_char_cut_matches_chars(s@, n);
}

} // verus!



