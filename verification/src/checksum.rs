use vstd::prelude::*;

verus! {

/// Modulus of both running sums of the window checksum.
pub const ADLER_MOD: u32 = 65521;

/// First accumulator: 1 plus the sum of the bytes, mod 65521.
pub open spec fn spec_adler_s1(data: Seq<u8>) -> u32
    decreases data.len(),
{
    if data.len() == 0 {
        1
    } else {
        ((spec_adler_s1(data.drop_last()) + data.last()) % (ADLER_MOD as int)) as u32
    }
}

/// Second accumulator: the sum of the successive values of the first one,
/// mod 65521.
pub open spec fn spec_adler_s2(data: Seq<u8>) -> u32
    decreases data.len(),
{
    if data.len() == 0 {
        0
    } else {
        ((spec_adler_s2(data.drop_last()) + spec_adler_s1(data)) % (ADLER_MOD as int)) as u32
    }
}

/// The checksum packs the second accumulator in the high 16 bits and the
/// first in the low 16.
pub open spec fn spec_adler32(data: Seq<u8>) -> u32 {
    (spec_adler_s2(data) * 0x10000 + spec_adler_s1(data)) as u32
}

pub proof fn lemma_adler_bounds(data: Seq<u8>)
    ensures
        spec_adler_s1(data) < ADLER_MOD,
        spec_adler_s2(data) < ADLER_MOD,
    decreases data.len(),
{
    if data.len() > 0 {
        lemma_adler_bounds(data.drop_last());
    }
}

/// Order-sensitive 32-bit checksum of a byte window, built from two running
/// sums mod 65521.
pub fn adler32(data: &[u8]) -> (r: u32)
    ensures
        r == spec_adler32(data@),
{
    let mut s1: u32 = 1;
    let mut s2: u32 = 0;
    let mut i: usize = 0;
    while i < data.len()
        invariant
            i <= data@.len(),
            s1 == spec_adler_s1(data@.take(i as int)),
            s2 == spec_adler_s2(data@.take(i as int)),
        decreases data@.len() - i,
    {
        proof {
            lemma_adler_bounds(data@.take(i as int));
            assert(data@.take(i as int + 1).drop_last() =~= data@.take(i as int));
            assert(data@.take(i as int + 1).last() == data@[i as int]);
        }
        s1 = (s1 + data[i] as u32) % ADLER_MOD;
        s2 = (s2 + s1) % ADLER_MOD;
        i = i + 1;
    }
    proof {
        assert(data@.take(i as int) =~= data@);
        lemma_adler_bounds(data@);
        assert(((s2 << 16) | s1) == s2 * 0x10000 + s1) by (bit_vector)
            requires
                s1 < 65521u32,
                s2 < 65521u32,
        ;
    }
    (s2 << 16) | s1
}

} // verus!
