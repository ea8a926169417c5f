//! Locality-sensitive text fingerprints for approximate near-duplicate
//! detection: a 64-bit SimHash folded from filtered word tokens, and a
//! MinHash signature reduced from k-byte shingle checksums.

pub mod checksum;
pub mod hashing;
pub mod minhash;
pub mod shingle;
pub mod simhash;
pub mod tokenize;
