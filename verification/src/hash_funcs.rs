//! The hash primitives: one byte out of a salt and three bytes.

use vstd::prelude::*;
use crate::consts::V_TABLE;
use crate::helper::Version;

verus! {

/// The entry of the permutation table at `index`.
#[verifier::opaque]
pub open spec fn permuted(index: int) -> u8 {
    V_TABLE[index]
}

/// The Pearson hash of a salt and three bytes: four chained lookups in the
/// permutation table.
pub open spec fn spec_pearson_h(salt: u8, ii: u8, jj: u8, kk: u8) -> u8 {
    let h0 = permuted(salt as int);
    let h1 = permuted((h0 ^ ii) as int);
    let h2 = permuted((h1 ^ jj) as int);
    permuted((h2 ^ kk) as int)
}

/// Computes the Pearson hash of a salt and three bytes.
pub fn pearson_h(salt: u8, ii: u8, jj: u8, kk: u8) -> (h: u8)
    ensures
        h == spec_pearson_h(salt, ii, jj, kk),
{
    proof {
        reveal(permuted);
    }
    let mut h: u8 = V_TABLE[salt as usize];
    h = V_TABLE[(h ^ ii) as usize];
    h = V_TABLE[(h ^ jj) as usize];
    V_TABLE[(h ^ kk) as usize]
}

/// The 64-bit XXH3 hash of a byte sequence, with seed 0 and the default secret.
pub uninterp spec fn xxh3_64_of(input: Seq<u8>) -> u64;

/// `xxhash_rust::xxh3::xxh3_64` is believed to return the XXH3 hash of its
/// input: a value that depends on the input bytes alone. Nothing more is
/// claimed of it.
pub assume_specification[ xxhash_rust::xxh3::xxh3_64 ](input: &[u8]) -> (h: u64)
    ensures
        h == xxh3_64_of(input@),
;

/// The lowest eight bits of a 64-bit hash.
pub open spec fn spec_low_byte(h: u64) -> u8 {
    (h % 256) as u8
}

/// Keeps the lowest eight bits of a 64-bit hash.
pub fn low_byte(h: u64) -> (b: u8)
    ensures
        b == spec_low_byte(h),
{
    (h % 256) as u8
}

/// The truncated XXH3 hash of a salt and three bytes.
pub open spec fn spec_xxhash_h(salt: u8, ii: u8, jj: u8, kk: u8) -> u8 {
    spec_low_byte(xxh3_64_of(seq![salt, ii, jj, kk]))
}

/// Computes the XXH3 hash of the four bytes and keeps its lowest eight bits.
pub fn xxhash_h(salt: u8, ii: u8, jj: u8, kk: u8) -> (h: u8)
    ensures
        h == spec_xxhash_h(salt, ii, jj, kk),
{
    let input: [u8; 4] = [salt, ii, jj, kk];
    assert(input@ =~= seq![salt, ii, jj, kk]);
    low_byte(xxhash_rust::xxh3::xxh3_64(input.as_slice()))
}

/// The hash primitive of a format version: XXH3 for TxLsh, Pearson otherwise.
pub open spec fn spec_hasher(salt: u8, ii: u8, jj: u8, kk: u8, ver: Version) -> u8 {
    match ver {
        Version::TxLshV1 => spec_xxhash_h(salt, ii, jj, kk),
        _ => spec_pearson_h(salt, ii, jj, kk),
    }
}

/// Applies the hash primitive of `ver` to a salt and three bytes.
pub fn hasher(salt: u8, ii: u8, jj: u8, kk: u8, ver: Version) -> (h: u8)
    ensures
        h == spec_hasher(salt, ii, jj, kk, ver),
{
    match ver {
        Version::TxLshV1 => xxhash_h(salt, ii, jj, kk),
        _ => pearson_h(salt, ii, jj, kk),
    }
}

} // verus!
