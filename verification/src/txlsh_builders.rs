//! Builders with the usual configurations.

use vstd::prelude::*;
use crate::helper::{BucketKind, ChecksumKind, Version};
use crate::txlsh_mod::{fresh, TxLshBuilder};

verus! {

/// Makes a builder with 128 buckets and one checksum byte, in the current
/// TLSH format.
pub fn default_builder() -> (builder: TxLshBuilder)
    ensures
        builder@ == fresh(BucketKind::Bucket128, ChecksumKind::OneByte, Version::Version4),
{
    TxLshBuilder::new(BucketKind::Bucket128, ChecksumKind::OneByte, Version::Version4)
}

/// Makes a builder with 256 buckets and three checksum bytes, in the current
/// TLSH format.
pub fn full_builder() -> (builder: TxLshBuilder)
    ensures
        builder@ == fresh(BucketKind::Bucket256, ChecksumKind::ThreeByte, Version::Version4),
{
    TxLshBuilder::new(BucketKind::Bucket256, ChecksumKind::ThreeByte, Version::Version4)
}

/// Makes a builder with 256 buckets and three checksum bytes, in the TxLsh
/// format.
pub fn tx_lsh_builder() -> (builder: TxLshBuilder)
    ensures
        builder@ == fresh(BucketKind::Bucket256, ChecksumKind::ThreeByte, Version::TxLshV1),
{
    TxLshBuilder::new(BucketKind::Bucket256, ChecksumKind::ThreeByte, Version::TxLshV1)
}

} // verus!
