use vstd::prelude::*;

use blake2::digest::{Update, VariableOutput};
use blake2::Blake2bVar;

verus! {

/// The 64-bit value denoted by the 8-byte BLAKE2b digest of `s`, read in
/// little-endian byte order. The digest is a fixed function of the input
/// bytes alone, identical across platforms and runs, so it is given a name
/// here rather than a definition.
pub uninterp spec fn blake2b64_of(s: Seq<u8>) -> u64;

/// Relies on `blake2::Blake2bVar`: an 8-byte BLAKE2b digest is a pure
/// function of the hashed bytes. `Blake2bVar::new(8)` accepts any output
/// size in 1..=64, and `finalize_variable` only rejects a buffer whose
/// length differs from that size, so neither `expect` can fail here.
#[verifier::external_body]
pub(crate) fn token_hash64(token: &Vec<u8>) -> (r: u64)
    ensures
        r == blake2b64_of(token@),
{
    let mut hasher = Blake2bVar::new(8).expect("blake2b init");
    hasher.update(token.as_slice());
    let mut out = [0u8; 8];
    hasher.finalize_variable(&mut out).expect("blake2b finalize");
    u64::from_le_bytes(out)
}

} // verus!
