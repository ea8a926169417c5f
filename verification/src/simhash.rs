use vstd::prelude::*;
use vstd::string::StringSliceAdditionalSpecFns;

use crate::hashing::{blake2b64_of, token_hash64};
use crate::tokenize::{is_ascii_alpha, is_stopword, scan_token, spec_qualifies, spec_tokens};

verus! {

/// Token cap applied when the caller passes no explicit limit.
pub const DEFAULT_SIMHASH_MAX_TOKENS: usize = 20000;

pub open spec fn spec_effective_limit(max_tokens: Option<usize>) -> usize {
    match max_tokens {
        Some(l) => l,
        None => DEFAULT_SIMHASH_MAX_TOKENS,
    }
}

/// The tokens that the fold consumes: the qualifying tokens of `s` in scan
/// order, cut off after the first `limit`.
pub open spec fn simhash_tokens(s: Seq<u8>, limit: usize) -> Seq<Seq<u8>> {
    let toks = spec_tokens(s, 0);
    if limit < toks.len() {
        toks.take(limit as int)
    } else {
        toks
    }
}

/// The 64-bit hash of each token, in token order.
pub open spec fn hashes_of(toks: Seq<Seq<u8>>) -> Seq<u64> {
    toks.map_values(|t: Seq<u8>| blake2b64_of(t))
}

/// Net vote for bit `bit`: +1 for each hash with the bit set, -1 for each
/// hash with it clear.
pub open spec fn vote(hs: Seq<u64>, bit: u64) -> int
    decreases hs.len(),
{
    if hs.len() == 0 {
        0
    } else {
        vote(hs.drop_last(), bit) + (if ((hs.last() >> bit) & 1) == 1 {
            1int
        } else {
            -1int
        })
    }
}

/// Relates a fingerprint `r` to the input: bit `b` of `r` is set exactly
/// when the net vote for `b` over the capped token hashes is strictly
/// positive, so a zero counter (a tie) leaves the bit clear.
pub open spec fn simhash_post(s: Seq<u8>, limit: usize, r: u64) -> bool {
    let hs = hashes_of(simhash_tokens(s, limit));
    forall|bit: u64| bit < 64 ==> ((((r >> bit) & 1) == 1) <==> #[trigger] vote(hs, bit) > 0)
}

proof fn lemma_bit01(x: u64, b: u64)
    ensures
        ((x >> b) & 1) == 0 || ((x >> b) & 1) == 1,
{
    assert(((x >> b) & 1) == 0 || ((x >> b) & 1) == 1) by (bit_vector);
}

proof fn lemma_zero_bit(b: u64)
    ensures
        ((0u64 >> b) & 1) == 0,
{
    assert(((0u64 >> b) & 1) == 0) by (bit_vector);
}

proof fn lemma_set_bit(x: u64, i: u64, b: u64)
    requires
        i < 64,
        b < 64,
    ensures
        ((x | (1u64 << i)) >> b) & 1 == (if b == i {
            1u64
        } else {
            (x >> b) & 1
        }),
{
    assert(((x | (1u64 << i)) >> b) & 1 == (if b == i {
        1u64
    } else {
        (x >> b) & 1
    })) by (bit_vector)
        requires
            i < 64,
            b < 64,
    ;
}

/// Two 64-bit values that agree on each of their 64 bits are equal.
proof fn lemma_u64_from_bits(x: u64, y: u64)
    requires
        forall|b: u64| b < 64 ==> ((x >> b) & 1) == ((y >> b) & 1),
    ensures
        x == y,
{
    assert(((x >> 0u64) & 1) == ((y >> 0u64) & 1));
    assert(((x >> 1u64) & 1) == ((y >> 1u64) & 1));
    assert(((x >> 2u64) & 1) == ((y >> 2u64) & 1));
    assert(((x >> 3u64) & 1) == ((y >> 3u64) & 1));
    assert(((x >> 4u64) & 1) == ((y >> 4u64) & 1));
    assert(((x >> 5u64) & 1) == ((y >> 5u64) & 1));
    assert(((x >> 6u64) & 1) == ((y >> 6u64) & 1));
    assert(((x >> 7u64) & 1) == ((y >> 7u64) & 1));
    assert(((x >> 8u64) & 1) == ((y >> 8u64) & 1));
    assert(((x >> 9u64) & 1) == ((y >> 9u64) & 1));
    assert(((x >> 10u64) & 1) == ((y >> 10u64) & 1));
    assert(((x >> 11u64) & 1) == ((y >> 11u64) & 1));
    assert(((x >> 12u64) & 1) == ((y >> 12u64) & 1));
    assert(((x >> 13u64) & 1) == ((y >> 13u64) & 1));
    assert(((x >> 14u64) & 1) == ((y >> 14u64) & 1));
    assert(((x >> 15u64) & 1) == ((y >> 15u64) & 1));
    assert(((x >> 16u64) & 1) == ((y >> 16u64) & 1));
    assert(((x >> 17u64) & 1) == ((y >> 17u64) & 1));
    assert(((x >> 18u64) & 1) == ((y >> 18u64) & 1));
    assert(((x >> 19u64) & 1) == ((y >> 19u64) & 1));
    assert(((x >> 20u64) & 1) == ((y >> 20u64) & 1));
    assert(((x >> 21u64) & 1) == ((y >> 21u64) & 1));
    assert(((x >> 22u64) & 1) == ((y >> 22u64) & 1));
    assert(((x >> 23u64) & 1) == ((y >> 23u64) & 1));
    assert(((x >> 24u64) & 1) == ((y >> 24u64) & 1));
    assert(((x >> 25u64) & 1) == ((y >> 25u64) & 1));
    assert(((x >> 26u64) & 1) == ((y >> 26u64) & 1));
    assert(((x >> 27u64) & 1) == ((y >> 27u64) & 1));
    assert(((x >> 28u64) & 1) == ((y >> 28u64) & 1));
    assert(((x >> 29u64) & 1) == ((y >> 29u64) & 1));
    assert(((x >> 30u64) & 1) == ((y >> 30u64) & 1));
    assert(((x >> 31u64) & 1) == ((y >> 31u64) & 1));
    assert(((x >> 32u64) & 1) == ((y >> 32u64) & 1));
    assert(((x >> 33u64) & 1) == ((y >> 33u64) & 1));
    assert(((x >> 34u64) & 1) == ((y >> 34u64) & 1));
    assert(((x >> 35u64) & 1) == ((y >> 35u64) & 1));
    assert(((x >> 36u64) & 1) == ((y >> 36u64) & 1));
    assert(((x >> 37u64) & 1) == ((y >> 37u64) & 1));
    assert(((x >> 38u64) & 1) == ((y >> 38u64) & 1));
    assert(((x >> 39u64) & 1) == ((y >> 39u64) & 1));
    assert(((x >> 40u64) & 1) == ((y >> 40u64) & 1));
    assert(((x >> 41u64) & 1) == ((y >> 41u64) & 1));
    assert(((x >> 42u64) & 1) == ((y >> 42u64) & 1));
    assert(((x >> 43u64) & 1) == ((y >> 43u64) & 1));
    assert(((x >> 44u64) & 1) == ((y >> 44u64) & 1));
    assert(((x >> 45u64) & 1) == ((y >> 45u64) & 1));
    assert(((x >> 46u64) & 1) == ((y >> 46u64) & 1));
    assert(((x >> 47u64) & 1) == ((y >> 47u64) & 1));
    assert(((x >> 48u64) & 1) == ((y >> 48u64) & 1));
    assert(((x >> 49u64) & 1) == ((y >> 49u64) & 1));
    assert(((x >> 50u64) & 1) == ((y >> 50u64) & 1));
    assert(((x >> 51u64) & 1) == ((y >> 51u64) & 1));
    assert(((x >> 52u64) & 1) == ((y >> 52u64) & 1));
    assert(((x >> 53u64) & 1) == ((y >> 53u64) & 1));
    assert(((x >> 54u64) & 1) == ((y >> 54u64) & 1));
    assert(((x >> 55u64) & 1) == ((y >> 55u64) & 1));
    assert(((x >> 56u64) & 1) == ((y >> 56u64) & 1));
    assert(((x >> 57u64) & 1) == ((y >> 57u64) & 1));
    assert(((x >> 58u64) & 1) == ((y >> 58u64) & 1));
    assert(((x >> 59u64) & 1) == ((y >> 59u64) & 1));
    assert(((x >> 60u64) & 1) == ((y >> 60u64) & 1));
    assert(((x >> 61u64) & 1) == ((y >> 61u64) & 1));
    assert(((x >> 62u64) & 1) == ((y >> 62u64) & 1));
    assert(((x >> 63u64) & 1) == ((y >> 63u64) & 1));
    assert(x == y) by (bit_vector)
        requires
            ((x >> 0u64) & 1) == ((y >> 0u64) & 1),
            ((x >> 1u64) & 1) == ((y >> 1u64) & 1),
            ((x >> 2u64) & 1) == ((y >> 2u64) & 1),
            ((x >> 3u64) & 1) == ((y >> 3u64) & 1),
            ((x >> 4u64) & 1) == ((y >> 4u64) & 1),
            ((x >> 5u64) & 1) == ((y >> 5u64) & 1),
            ((x >> 6u64) & 1) == ((y >> 6u64) & 1),
            ((x >> 7u64) & 1) == ((y >> 7u64) & 1),
            ((x >> 8u64) & 1) == ((y >> 8u64) & 1),
            ((x >> 9u64) & 1) == ((y >> 9u64) & 1),
            ((x >> 10u64) & 1) == ((y >> 10u64) & 1),
            ((x >> 11u64) & 1) == ((y >> 11u64) & 1),
            ((x >> 12u64) & 1) == ((y >> 12u64) & 1),
            ((x >> 13u64) & 1) == ((y >> 13u64) & 1),
            ((x >> 14u64) & 1) == ((y >> 14u64) & 1),
            ((x >> 15u64) & 1) == ((y >> 15u64) & 1),
            ((x >> 16u64) & 1) == ((y >> 16u64) & 1),
            ((x >> 17u64) & 1) == ((y >> 17u64) & 1),
            ((x >> 18u64) & 1) == ((y >> 18u64) & 1),
            ((x >> 19u64) & 1) == ((y >> 19u64) & 1),
            ((x >> 20u64) & 1) == ((y >> 20u64) & 1),
            ((x >> 21u64) & 1) == ((y >> 21u64) & 1),
            ((x >> 22u64) & 1) == ((y >> 22u64) & 1),
            ((x >> 23u64) & 1) == ((y >> 23u64) & 1),
            ((x >> 24u64) & 1) == ((y >> 24u64) & 1),
            ((x >> 25u64) & 1) == ((y >> 25u64) & 1),
            ((x >> 26u64) & 1) == ((y >> 26u64) & 1),
            ((x >> 27u64) & 1) == ((y >> 27u64) & 1),
            ((x >> 28u64) & 1) == ((y >> 28u64) & 1),
            ((x >> 29u64) & 1) == ((y >> 29u64) & 1),
            ((x >> 30u64) & 1) == ((y >> 30u64) & 1),
            ((x >> 31u64) & 1) == ((y >> 31u64) & 1),
            ((x >> 32u64) & 1) == ((y >> 32u64) & 1),
            ((x >> 33u64) & 1) == ((y >> 33u64) & 1),
            ((x >> 34u64) & 1) == ((y >> 34u64) & 1),
            ((x >> 35u64) & 1) == ((y >> 35u64) & 1),
            ((x >> 36u64) & 1) == ((y >> 36u64) & 1),
            ((x >> 37u64) & 1) == ((y >> 37u64) & 1),
            ((x >> 38u64) & 1) == ((y >> 38u64) & 1),
            ((x >> 39u64) & 1) == ((y >> 39u64) & 1),
            ((x >> 40u64) & 1) == ((y >> 40u64) & 1),
            ((x >> 41u64) & 1) == ((y >> 41u64) & 1),
            ((x >> 42u64) & 1) == ((y >> 42u64) & 1),
            ((x >> 43u64) & 1) == ((y >> 43u64) & 1),
            ((x >> 44u64) & 1) == ((y >> 44u64) & 1),
            ((x >> 45u64) & 1) == ((y >> 45u64) & 1),
            ((x >> 46u64) & 1) == ((y >> 46u64) & 1),
            ((x >> 47u64) & 1) == ((y >> 47u64) & 1),
            ((x >> 48u64) & 1) == ((y >> 48u64) & 1),
            ((x >> 49u64) & 1) == ((y >> 49u64) & 1),
            ((x >> 50u64) & 1) == ((y >> 50u64) & 1),
            ((x >> 51u64) & 1) == ((y >> 51u64) & 1),
            ((x >> 52u64) & 1) == ((y >> 52u64) & 1),
            ((x >> 53u64) & 1) == ((y >> 53u64) & 1),
            ((x >> 54u64) & 1) == ((y >> 54u64) & 1),
            ((x >> 55u64) & 1) == ((y >> 55u64) & 1),
            ((x >> 56u64) & 1) == ((y >> 56u64) & 1),
            ((x >> 57u64) & 1) == ((y >> 57u64) & 1),
            ((x >> 58u64) & 1) == ((y >> 58u64) & 1),
            ((x >> 59u64) & 1) == ((y >> 59u64) & 1),
            ((x >> 60u64) & 1) == ((y >> 60u64) & 1),
            ((x >> 61u64) & 1) == ((y >> 61u64) & 1),
            ((x >> 62u64) & 1) == ((y >> 62u64) & 1),
            ((x >> 63u64) & 1) == ((y >> 63u64) & 1),
    ;
}

proof fn lemma_vote_push(hs: Seq<u64>, h: u64, bit: u64)
    ensures
        vote(hs.push(h), bit) == vote(hs, bit) + (if ((h >> bit) & 1) == 1 {
            1int
        } else {
            -1int
        }),
{
    assert(hs.push(h).drop_last() =~= hs);
}

proof fn lemma_hashes_push(toks: Seq<Seq<u8>>, t: Seq<u8>)
    ensures
        hashes_of(toks.push(t)) =~= hashes_of(toks).push(blake2b64_of(t)),
{
}

/// The 64-bit SimHash fingerprint of `text`: each qualifying token (at most
/// `max_tokens` of them, 20000 when unspecified) votes on every bit of the
/// result through its hash; a bit is set when its net vote is positive.
/// A limit of zero, or an input with no qualifying token, yields zero.
pub fn simhash64(text: &str, max_tokens: Option<usize>) -> (r: u64)
    ensures
        simhash_post(text.spec_bytes(), spec_effective_limit(max_tokens), r),
        spec_tokens(text.spec_bytes(), 0).len() == 0 ==> r == 0,
        spec_effective_limit(max_tokens) == 0 ==> r == 0,
{
    let limit: usize = match max_tokens {
        Some(l) => l,
        None => DEFAULT_SIMHASH_MAX_TOKENS,
    };
    let bytes: &[u8] = text.as_bytes();
    let ghost s = text.spec_bytes();

    if limit == 0 {
        proof {
            let toks = spec_tokens(s, 0);
            assert(simhash_tokens(s, limit).len() == 0);
            assert(hashes_of(simhash_tokens(s, limit)).len() == 0);
            assert forall|bit: u64| bit < 64 implies ((((0u64 >> bit) & 1) == 1) <==> vote(
                hashes_of(simhash_tokens(s, limit)),
                bit,
            ) > 0) by {
                lemma_zero_bit(bit);
            }
        }
        return 0;
    }
    let mut votes: Vec<i128> = Vec::new();
    let mut k: usize = 0;
    while k < 64
        invariant
            votes@.len() == k as int,
            k <= 64,
            forall|b: int| 0 <= b < k ==> votes@[b] == 0,
        decreases 64 - k,
    {
        votes.push(0);
        k = k + 1;
    }

    let mut i: usize = 0;
    let mut seen: usize = 0;
    let ghost mut done: Seq<Seq<u8>> = Seq::empty();
    proof {
        assert(spec_tokens(s, 0).take(0) =~= done);
        assert(spec_tokens(s, 0).skip(0) =~= spec_tokens(s, 0));
        assert(hashes_of(done).len() == 0);
    }

    while i < bytes.len() && seen < limit
        invariant
            bytes@ == s,
            i <= s.len(),
            votes@.len() == 64,
            seen <= limit,
            seen as int == done.len(),
            seen <= spec_tokens(s, 0).len(),
            done == spec_tokens(s, 0).take(seen as int),
            spec_tokens(s, i as int) == spec_tokens(s, 0).skip(seen as int),
            forall|bit: u64| bit < 64 ==> votes@[bit as int] == vote(hashes_of(done), bit),
            forall|bit: u64|
                bit < 64 ==> -(seen as int) <= #[trigger] votes@[bit as int] <= seen as int,
        decreases s.len() - i,
    {
        let b = bytes[i];
        if is_ascii_alpha(b) {
            let (tok, j) = scan_token(bytes, i);
            let ghost tokens_all = spec_tokens(s, 0);
            let ghost rest = spec_tokens(s, j as int);
            if tok.len() >= 4 && !is_stopword(&tok) {
                proof {
                    assert(spec_qualifies(tok@));
                    assert(spec_tokens(s, i as int) == seq![tok@] + rest);
                    assert(tokens_all.skip(seen as int) == seq![tok@] + rest);
                    assert(tokens_all.skip(seen as int)[0] == tokens_all[seen as int]);
                    assert(tokens_all[seen as int] == tok@);
                    assert(seen as int + 1 <= tokens_all.len());
                    assert(tokens_all.skip(seen as int + 1) =~= rest) by {
                        assert forall|q: int| 0 <= q < rest.len() implies tokens_all.skip(
                            seen as int + 1,
                        )[q] == rest[q] by {
                            assert(tokens_all.skip(seen as int)[q + 1] == rest[q]);
                            assert(tokens_all.skip(seen as int)[q + 1] == tokens_all[seen as int + 1
                                + q]);
                            assert(tokens_all.skip(seen as int + 1)[q] == tokens_all[seen as int + 1
                                + q]);
                        }
                    }
                    assert(tokens_all.take(seen as int + 1) =~= done.push(tok@));
                }
                let h = token_hash64(&tok);
                let ghost old_hs = hashes_of(done);
                let ghost new_hs = hashes_of(done.push(tok@));
                proof {
                    lemma_hashes_push(done, tok@);
                    assert(new_hs == old_hs.push(h));
                }
                let mut bit: usize = 0;
                while bit < 64
                    invariant
                        bit <= 64,
                        votes@.len() == 64,
                        seen < limit,
                        new_hs == old_hs.push(h),
                        forall|b2: u64| b2 < bit ==> votes@[b2 as int] == vote(new_hs, b2),
                        forall|b2: u64| bit <= b2 < 64 ==> votes@[b2 as int] == vote(old_hs, b2),
                        forall|b2: u64|
                            b2 < bit ==> -(seen as int) - 1 <= #[trigger] votes@[b2 as int] <= seen
                                as int + 1,
                        forall|b2: u64|
                            bit <= b2 < 64 ==> -(seen as int) <= #[trigger] votes@[b2 as int]
                                <= seen as int,
                    decreases 64 - bit,
                {
                    let one_set = ((h >> (bit as u64)) & 1) == 1;
                    proof {
                        lemma_vote_push(old_hs, h, bit as u64);
                    }
                    if one_set {
                        votes[bit] = votes[bit] + 1;
                    } else {
                        votes[bit] = votes[bit] - 1;
                    }
                    bit = bit + 1;
                }
                seen = seen + 1;
                proof {
                    done = done.push(tok@);
                }
            } else {
                proof {
                    assert(!spec_qualifies(tok@));
                    assert(spec_tokens(s, i as int) == rest);
                }
            }
            i = j;
        } else {
            proof {
                assert(spec_tokens(s, i as int) == spec_tokens(s, i as int + 1));
            }
            i = i + 1;
        }
    }

    proof {
        let toks = spec_tokens(s, 0);
        if seen >= limit {
            assert(seen == limit);
            if limit < toks.len() {
                assert(done == simhash_tokens(s, limit));
            } else {
                assert(seen as int == toks.len());
                assert(done =~= toks);
            }
        } else {
            assert(i as int == s.len());
            assert(spec_tokens(s, i as int).len() == 0);
            assert(toks.skip(seen as int).len() == toks.len() - seen as int);
            assert(seen as int == toks.len());
            assert(done =~= toks);
            assert(done == simhash_tokens(s, limit));
        }
    }
    let ghost hs = hashes_of(simhash_tokens(s, limit));

    let mut out: u64 = 0;
    let mut idx: usize = 0;
    proof {
        assert forall|b: u64| b < 64 implies ((0u64 >> b) & 1) == 0 by {
            lemma_zero_bit(b);
        }
    }
    while idx < 64
        invariant
            idx <= 64,
            votes@.len() == 64,
            forall|bit: u64| bit < 64 ==> votes@[bit as int] == vote(hs, bit),
            forall|b: u64| b < idx ==> ((((out >> b) & 1) == 1) <==> vote(hs, b) > 0),
            forall|b: u64| idx <= b < 64 ==> ((out >> b) & 1) == 0,
        decreases 64 - idx,
    {
        if votes[idx] > 0 {
            let ghost old_out = out;
            out = out | (1u64 << (idx as u64));
            proof {
                assert forall|b: u64| b < 64 implies ((out >> b) & 1) == (if b == idx as u64 {
                    1u64
                } else {
                    (old_out >> b) & 1
                }) by {
                    lemma_set_bit(old_out, idx as u64, b);
                }
            }
        }
        idx = idx + 1;
    }

    proof {
        assert(simhash_post(s, limit, out));
        if spec_tokens(s, 0).len() == 0 {
            assert(hs.len() == 0);
            assert forall|b: u64| b < 64 implies ((out >> b) & 1) == ((0u64 >> b) & 1) by {
                lemma_zero_bit(b);
                lemma_bit01(out, b);
                assert(vote(hs, b) == 0);
            }
            lemma_u64_from_bits(out, 0u64);
        }
    }
    out
}

/// Determinism: the contract pins every bit of the fingerprint, so any two
/// results for the same input and limit are bitwise identical.
pub proof fn lemma_simhash_deterministic(s: Seq<u8>, limit: usize, r1: u64, r2: u64)
    requires
        simhash_post(s, limit, r1),
        simhash_post(s, limit, r2),
    ensures
        r1 == r2,
{
    let hs = hashes_of(simhash_tokens(s, limit));
    assert forall|b: u64| b < 64 implies ((r1 >> b) & 1) == ((r2 >> b) & 1) by {
        lemma_bit01(r1, b);
        lemma_bit01(r2, b);
        assert(((r1 >> b) & 1) == 1 <==> vote(hs, b) > 0);
        assert(((r2 >> b) & 1) == 1 <==> vote(hs, b) > 0);
    }
    lemma_u64_from_bits(r1, r2);
}

/// The fingerprint depends only on the capped token sequence: two inputs
/// whose first `limit` qualifying tokens agree fingerprint alike.
pub proof fn lemma_simhash_prefix_determines(
    s1: Seq<u8>,
    s2: Seq<u8>,
    limit: usize,
    r1: u64,
    r2: u64,
)
    requires
        simhash_tokens(s1, limit) == simhash_tokens(s2, limit),
        simhash_post(s1, limit, r1),
        simhash_post(s2, limit, r2),
    ensures
        r1 == r2,
{
    let hs = hashes_of(simhash_tokens(s1, limit));
    assert forall|b: u64| b < 64 implies ((r1 >> b) & 1) == ((r2 >> b) & 1) by {
        lemma_bit01(r1, b);
        lemma_bit01(r2, b);
        assert(((r1 >> b) & 1) == 1 <==> vote(hs, b) > 0);
        assert(((r2 >> b) & 1) == 1 <==> vote(hs, b) > 0);
    }
    lemma_u64_from_bits(r1, r2);
}

/// Raising the cap to or beyond the number of qualifying tokens changes
/// nothing: every such limit yields the uncapped fingerprint.
pub proof fn lemma_simhash_cap_saturates(s: Seq<u8>, n1: usize, n2: usize, r1: u64, r2: u64)
    requires
        spec_tokens(s, 0).len() <= n1,
        spec_tokens(s, 0).len() <= n2,
        simhash_post(s, n1, r1),
        simhash_post(s, n2, r2),
    ensures
        r1 == r2,
{
    let hs = hashes_of(spec_tokens(s, 0));
    assert(simhash_tokens(s, n1) == spec_tokens(s, 0));
    assert(simhash_tokens(s, n2) == spec_tokens(s, 0));
    assert forall|b: u64| b < 64 implies ((r1 >> b) & 1) == ((r2 >> b) & 1) by {
        lemma_bit01(r1, b);
        lemma_bit01(r2, b);
        assert(((r1 >> b) & 1) == 1 <==> vote(hs, b) > 0);
        assert(((r2 >> b) & 1) == 1 <==> vote(hs, b) > 0);
    }
    lemma_u64_from_bits(r1, r2);
}

} // verus!

