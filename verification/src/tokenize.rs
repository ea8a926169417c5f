use vstd::prelude::*;

verus! {

/// True for the bytes `A`..=`Z` and `a`..=`z`, the only bytes that may start
/// a token.
pub open spec fn spec_is_ascii_alpha(b: u8) -> bool {
    (65 <= b && b <= 90) || (97 <= b && b <= 122)
}

/// True for the bytes that may continue a token once it has started:
/// letters, digits and `_`.
pub open spec fn spec_is_word_byte(b: u8) -> bool {
    spec_is_ascii_alpha(b) || (48 <= b && b <= 57) || b == 95
}

/// ASCII lowercasing of a single byte; bytes outside `A`..=`Z` are unchanged.
pub open spec fn spec_lower(b: u8) -> u8 {
    if 65 <= b && b <= 90 {
        (b + 32) as u8
    } else {
        b
    }
}

/// ASCII lowercasing of a whole byte sequence.
pub open spec fn lower_seq(s: Seq<u8>) -> Seq<u8> {
    s.map_values(|b: u8| spec_lower(b))
}

pub fn is_ascii_alpha(b: u8) -> (r: bool)
    ensures
        r == spec_is_ascii_alpha(b),
{
    (65 <= b && b <= 90) || (97 <= b && b <= 122)
}

pub fn is_ascii_alnum_or_underscore(b: u8) -> (r: bool)
    ensures
        r == spec_is_word_byte(b),
{
    is_ascii_alpha(b) || (48 <= b && b <= 57) || b == 95
}

fn lower_byte(b: u8) -> (r: u8)
    ensures
        r == spec_lower(b),
{
    if 65 <= b && b <= 90 {
        b + 32
    } else {
        b
    }
}

/// First index at or after `i` where the run of word bytes ends.
pub open spec fn token_end(s: Seq<u8>, i: int) -> int
    decreases s.len() - i,
{
    if i < 0 || i >= s.len() {
        i
    } else if spec_is_word_byte(s[i]) {
        token_end(s, i + 1)
    } else {
        i
    }
}

pub proof fn lemma_token_end_bounds(s: Seq<u8>, i: int)
    requires
        0 <= i <= s.len(),
    ensures
        i <= token_end(s, i) <= s.len(),
        i < s.len() && spec_is_word_byte(s[i]) ==> i < token_end(s, i),
    decreases s.len() - i,
{
    if i < s.len() && spec_is_word_byte(s[i]) {
        lemma_token_end_bounds(s, i + 1);
    }
}

/// A candidate token qualifies when it is at least four bytes long and is
/// not a stopword.
pub open spec fn spec_qualifies(tok: Seq<u8>) -> bool {
    tok.len() >= 4 && !spec_is_stopword(tok)
}

/// The qualifying tokens found at or after position `i`, in scan order.
/// A token is a maximal run of word bytes that starts with a letter,
/// lowercased as it is read; every byte outside such a run is skipped.
pub open spec fn spec_tokens(s: Seq<u8>, i: int) -> Seq<Seq<u8>>
    decreases s.len() - i
    via spec_tokens_decreases
{
    if i < 0 || i >= s.len() {
        Seq::empty()
    } else if spec_is_ascii_alpha(s[i]) {
        let tok = lower_seq(s.subrange(i, token_end(s, i)));
        let rest = spec_tokens(s, token_end(s, i));
        if spec_qualifies(tok) {
            seq![tok] + rest
        } else {
            rest
        }
    } else {
        spec_tokens(s, i + 1)
    }
}

#[via_fn]
proof fn spec_tokens_decreases(s: Seq<u8>, i: int) {
    if 0 <= i < s.len() && spec_is_ascii_alpha(s[i]) {
        lemma_token_end_bounds(s, i);
    }
}

/// Reads the token that starts at `start` (a letter), lowercasing it, and
/// reports where the scan should resume.
pub fn scan_token(bytes: &[u8], start: usize) -> (res: (Vec<u8>, usize))
    requires
        start < bytes@.len(),
        spec_is_ascii_alpha(bytes@[start as int]),
    ensures
        res.1 == token_end(bytes@, start as int),
        res.0@ == lower_seq(bytes@.subrange(start as int, res.1 as int)),
        start < res.1 <= bytes@.len(),
{
    let ghost s = bytes@;
    let mut tok: Vec<u8> = Vec::new();
    tok.push(lower_byte(bytes[start]));
    let mut i: usize = start + 1;
    proof {
        lemma_token_end_bounds(s, start as int);
        assert(lower_seq(s.subrange(start as int, start + 1)) =~= tok@);
    }
    while i < bytes.len() && is_ascii_alnum_or_underscore(bytes[i])
        invariant
            start < i <= s.len(),
            bytes@ == s,
            token_end(s, start as int) == token_end(s, i as int),
            tok@ == lower_seq(s.subrange(start as int, i as int)),
        decreases s.len() - i,
    {
        tok.push(lower_byte(bytes[i]));
        proof {
            assert(lower_seq(s.subrange(start as int, i + 1)) =~= lower_seq(
                s.subrange(start as int, i as int),
            ).push(spec_lower(s[i as int])));
        }
        i = i + 1;
    }
    proof {
        assert(token_end(s, i as int) == i);
        lemma_token_end_bounds(s, start as int);
    }
    (tok, i)
}

/// The fixed list of common English words that the tokenizer discards.
/// Each disjunct spells one word as its lowercase ASCII byte values.
pub open spec fn spec_is_stopword(s: Seq<u8>) -> bool {
    ||| (s.len() == 3 && s[0] == 116 && s[1] == 104 && s[2] == 101)  // "the"
    ||| (s.len() == 3 && s[0] == 97 && s[1] == 110 && s[2] == 100)  // "and"
    ||| (s.len() == 3 && s[0] == 102 && s[1] == 111 && s[2] == 114)  // "for"
    ||| (s.len() == 4 && s[0] == 116 && s[1] == 104 && s[2] == 97 && s[3] == 116)  // "that"
    ||| (s.len() == 4 && s[0] == 119 && s[1] == 105 && s[2] == 116 && s[3] == 104)  // "with"
    ||| (s.len() == 4 && s[0] == 116 && s[1] == 104 && s[2] == 105 && s[3] == 115)  // "this"
    ||| (s.len() == 4 && s[0] == 102 && s[1] == 114 && s[2] == 111 && s[3] == 109)  // "from"
    ||| (s.len() == 4 && s[0] == 104 && s[1] == 97 && s[2] == 118 && s[3] == 101)  // "have"
    ||| (s.len() == 4 && s[0] == 121 && s[1] == 111 && s[2] == 117 && s[3] == 114)  // "your"
    ||| (s.len() == 4 && s[0] == 105 && s[1] == 110 && s[2] == 116 && s[3] == 111)  // "into"
    ||| (s.len() == 4 && s[0] == 115 && s[1] == 117 && s[2] == 99 && s[3] == 104)  // "such"
    ||| (s.len() == 4 && s[0] == 119 && s[1] == 104 && s[2] == 101 && s[3] == 110)  // "when"
    ||| (s.len() == 5 && s[0] == 119 && s[1] == 104 && s[2] == 101 && s[3] == 114 && s[4] == 101)  // "where"
    ||| (s.len() == 5 && s[0] == 119 && s[1] == 104 && s[2] == 105 && s[3] == 99 && s[4] == 104)  // "which"
    ||| (s.len() == 5 && s[0] == 119 && s[1] == 104 && s[2] == 105 && s[3] == 108 && s[4] == 101)  // "while"
    ||| (s.len() == 5 && s[0] == 116 && s[1] == 104 && s[2] == 101 && s[3] == 114 && s[4] == 101)  // "there"
    ||| (s.len() == 5 && s[0] == 116 && s[1] == 104 && s[2] == 101 && s[3] == 105 && s[4] == 114)  // "their"
    ||| (s.len() == 4 && s[0] == 98 && s[1] == 101 && s[2] == 101 && s[3] == 110)  // "been"
    ||| (s.len() == 4 && s[0] == 116 && s[1] == 104 && s[2] == 97 && s[3] == 110)  // "than"
    ||| (s.len() == 4 && s[0] == 97 && s[1] == 108 && s[2] == 115 && s[3] == 111)  // "also"
    ||| (s.len() == 4 && s[0] == 109 && s[1] == 111 && s[2] == 114 && s[3] == 101)  // "more"
    ||| (s.len() == 5 && s[0] == 119 && s[1] == 111 && s[2] == 117 && s[3] == 108 && s[4] == 100)  // "would"
    ||| (s.len() == 5 && s[0] == 99 && s[1] == 111 && s[2] == 117 && s[3] == 108 && s[4] == 100)  // "could"
    ||| (s.len() == 6 && s[0] == 115 && s[1] == 104 && s[2] == 111 && s[3] == 117 && s[4] == 108 && s[5] == 100)  // "should"
    ||| (s.len() == 4 && s[0] == 119 && s[1] == 105 && s[2] == 108 && s[3] == 108)  // "will"
    ||| (s.len() == 3 && s[0] == 99 && s[1] == 97 && s[2] == 110)  // "can"
    ||| (s.len() == 5 && s[0] == 97 && s[1] == 98 && s[2] == 111 && s[3] == 117 && s[4] == 116)  // "about"
    ||| (s.len() == 4 && s[0] == 101 && s[1] == 97 && s[2] == 99 && s[3] == 104)  // "each"
    ||| (s.len() == 5 && s[0] == 111 && s[1] == 116 && s[2] == 104 && s[3] == 101 && s[4] == 114)  // "other"
    ||| (s.len() == 4 && s[0] == 115 && s[1] == 111 && s[2] == 109 && s[3] == 101)  // "some"
    ||| (s.len() == 4 && s[0] == 109 && s[1] == 111 && s[2] == 115 && s[3] == 116)  // "most"
    ||| (s.len() == 4 && s[0] == 109 && s[1] == 97 && s[2] == 110 && s[3] == 121)  // "many"
    ||| (s.len() == 4 && s[0] == 118 && s[1] == 101 && s[2] == 114 && s[3] == 121)  // "very"
    ||| (s.len() == 4 && s[0] == 111 && s[1] == 118 && s[2] == 101 && s[3] == 114)  // "over"
    ||| (s.len() == 5 && s[0] == 117 && s[1] == 110 && s[2] == 100 && s[3] == 101 && s[4] == 114)  // "under"
    ||| (s.len() == 7 && s[0] == 98 && s[1] == 101 && s[2] == 116 && s[3] == 119 && s[4] == 101 && s[5] == 101 && s[6] == 110)  // "between"
    ||| (s.len() == 5 && s[0] == 116 && s[1] == 104 && s[2] == 101 && s[3] == 115 && s[4] == 101)  // "these"
    ||| (s.len() == 5 && s[0] == 116 && s[1] == 104 && s[2] == 111 && s[3] == 115 && s[4] == 101)  // "those"
    ||| (s.len() == 4 && s[0] == 116 && s[1] == 104 && s[2] == 101 && s[3] == 109)  // "them"
    ||| (s.len() == 4 && s[0] == 116 && s[1] == 104 && s[2] == 101 && s[3] == 110)  // "then"
    ||| (s.len() == 4 && s[0] == 104 && s[1] == 101 && s[2] == 114 && s[3] == 101)  // "here"
    ||| (s.len() == 4 && s[0] == 111 && s[1] == 110 && s[2] == 116 && s[3] == 111)  // "onto"
    ||| (s.len() == 4 && s[0] == 117 && s[1] == 112 && s[2] == 111 && s[3] == 110)  // "upon"
    ||| (s.len() == 5 && s[0] == 117 && s[1] == 115 && s[2] == 105 && s[3] == 110 && s[4] == 103)  // "using"
    ||| (s.len() == 4 && s[0] == 117 && s[1] == 115 && s[2] == 101 && s[3] == 100)  // "used"
    ||| (s.len() == 3 && s[0] == 117 && s[1] == 115 && s[2] == 101)  // "use"
    ||| (s.len() == 5 && s[0] == 98 && s[1] == 97 && s[2] == 115 && s[3] == 101 && s[4] == 100)  // "based"
    ||| (s.len() == 6 && s[0] == 119 && s[1] == 105 && s[2] == 116 && s[3] == 104 && s[4] == 105 && s[5] == 110)  // "within"
    ||| (s.len() == 6 && s[0] == 97 && s[1] == 99 && s[2] == 114 && s[3] == 111 && s[4] == 115 && s[5] == 115)  // "across"
}

/// Stopword test on an already-lowercased token.
#[verifier::rlimit(30)]
pub fn is_stopword(t: &Vec<u8>) -> (r: bool)
    ensures
        r == spec_is_stopword(t@),
{
    (t.len() == 3 && t[0] == 116 && t[1] == 104 && t[2] == 101)  // "the"
    || (t.len() == 3 && t[0] == 97 && t[1] == 110 && t[2] == 100)  // "and"
    || (t.len() == 3 && t[0] == 102 && t[1] == 111 && t[2] == 114)  // "for"
    || (t.len() == 4 && t[0] == 116 && t[1] == 104 && t[2] == 97 && t[3] == 116)  // "that"
    || (t.len() == 4 && t[0] == 119 && t[1] == 105 && t[2] == 116 && t[3] == 104)  // "with"
    || (t.len() == 4 && t[0] == 116 && t[1] == 104 && t[2] == 105 && t[3] == 115)  // "this"
    || (t.len() == 4 && t[0] == 102 && t[1] == 114 && t[2] == 111 && t[3] == 109)  // "from"
    || (t.len() == 4 && t[0] == 104 && t[1] == 97 && t[2] == 118 && t[3] == 101)  // "have"
    || (t.len() == 4 && t[0] == 121 && t[1] == 111 && t[2] == 117 && t[3] == 114)  // "your"
    || (t.len() == 4 && t[0] == 105 && t[1] == 110 && t[2] == 116 && t[3] == 111)  // "into"
    || (t.len() == 4 && t[0] == 115 && t[1] == 117 && t[2] == 99 && t[3] == 104)  // "such"
    || (t.len() == 4 && t[0] == 119 && t[1] == 104 && t[2] == 101 && t[3] == 110)  // "when"
    || (t.len() == 5 && t[0] == 119 && t[1] == 104 && t[2] == 101 && t[3] == 114 && t[4] == 101)  // "where"
    || (t.len() == 5 && t[0] == 119 && t[1] == 104 && t[2] == 105 && t[3] == 99 && t[4] == 104)  // "which"
    || (t.len() == 5 && t[0] == 119 && t[1] == 104 && t[2] == 105 && t[3] == 108 && t[4] == 101)  // "while"
    || (t.len() == 5 && t[0] == 116 && t[1] == 104 && t[2] == 101 && t[3] == 114 && t[4] == 101)  // "there"
    || (t.len() == 5 && t[0] == 116 && t[1] == 104 && t[2] == 101 && t[3] == 105 && t[4] == 114)  // "their"
    || (t.len() == 4 && t[0] == 98 && t[1] == 101 && t[2] == 101 && t[3] == 110)  // "been"
    || (t.len() == 4 && t[0] == 116 && t[1] == 104 && t[2] == 97 && t[3] == 110)  // "than"
    || (t.len() == 4 && t[0] == 97 && t[1] == 108 && t[2] == 115 && t[3] == 111)  // "also"
    || (t.len() == 4 && t[0] == 109 && t[1] == 111 && t[2] == 114 && t[3] == 101)  // "more"
    || (t.len() == 5 && t[0] == 119 && t[1] == 111 && t[2] == 117 && t[3] == 108 && t[4] == 100)  // "would"
    || (t.len() == 5 && t[0] == 99 && t[1] == 111 && t[2] == 117 && t[3] == 108 && t[4] == 100)  // "could"
    || (t.len() == 6 && t[0] == 115 && t[1] == 104 && t[2] == 111 && t[3] == 117 && t[4] == 108 && t[5] == 100)  // "should"
    || (t.len() == 4 && t[0] == 119 && t[1] == 105 && t[2] == 108 && t[3] == 108)  // "will"
    || (t.len() == 3 && t[0] == 99 && t[1] == 97 && t[2] == 110)  // "can"
    || (t.len() == 5 && t[0] == 97 && t[1] == 98 && t[2] == 111 && t[3] == 117 && t[4] == 116)  // "about"
    || (t.len() == 4 && t[0] == 101 && t[1] == 97 && t[2] == 99 && t[3] == 104)  // "each"
    || (t.len() == 5 && t[0] == 111 && t[1] == 116 && t[2] == 104 && t[3] == 101 && t[4] == 114)  // "other"
    || (t.len() == 4 && t[0] == 115 && t[1] == 111 && t[2] == 109 && t[3] == 101)  // "some"
    || (t.len() == 4 && t[0] == 109 && t[1] == 111 && t[2] == 115 && t[3] == 116)  // "most"
    || (t.len() == 4 && t[0] == 109 && t[1] == 97 && t[2] == 110 && t[3] == 121)  // "many"
    || (t.len() == 4 && t[0] == 118 && t[1] == 101 && t[2] == 114 && t[3] == 121)  // "very"
    || (t.len() == 4 && t[0] == 111 && t[1] == 118 && t[2] == 101 && t[3] == 114)  // "over"
    || (t.len() == 5 && t[0] == 117 && t[1] == 110 && t[2] == 100 && t[3] == 101 && t[4] == 114)  // "under"
    || (t.len() == 7 && t[0] == 98 && t[1] == 101 && t[2] == 116 && t[3] == 119 && t[4] == 101 && t[5] == 101 && t[6] == 110)  // "between"
    || (t.len() == 5 && t[0] == 116 && t[1] == 104 && t[2] == 101 && t[3] == 115 && t[4] == 101)  // "these"
    || (t.len() == 5 && t[0] == 116 && t[1] == 104 && t[2] == 111 && t[3] == 115 && t[4] == 101)  // "those"
    || (t.len() == 4 && t[0] == 116 && t[1] == 104 && t[2] == 101 && t[3] == 109)  // "them"
    || (t.len() == 4 && t[0] == 116 && t[1] == 104 && t[2] == 101 && t[3] == 110)  // "then"
    || (t.len() == 4 && t[0] == 104 && t[1] == 101 && t[2] == 114 && t[3] == 101)  // "here"
    || (t.len() == 4 && t[0] == 111 && t[1] == 110 && t[2] == 116 && t[3] == 111)  // "onto"
    || (t.len() == 4 && t[0] == 117 && t[1] == 112 && t[2] == 111 && t[3] == 110)  // "upon"
    || (t.len() == 5 && t[0] == 117 && t[1] == 115 && t[2] == 105 && t[3] == 110 && t[4] == 103)  // "using"
    || (t.len() == 4 && t[0] == 117 && t[1] == 115 && t[2] == 101 && t[3] == 100)  // "used"
    || (t.len() == 3 && t[0] == 117 && t[1] == 115 && t[2] == 101)  // "use"
    || (t.len() == 5 && t[0] == 98 && t[1] == 97 && t[2] == 115 && t[3] == 101 && t[4] == 100)  // "based"
    || (t.len() == 6 && t[0] == 119 && t[1] == 105 && t[2] == 116 && t[3] == 104 && t[4] == 105 && t[5] == 110)  // "within"
    || (t.len() == 6 && t[0] == 97 && t[1] == 99 && t[2] == 114 && t[3] == 111 && t[4] == 115 && t[5] == 115)  // "across"
}

} // verus!

