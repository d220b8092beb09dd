//! A locality-sensitive fuzzy digest of byte streams.
//!
//! Similar inputs produce digests whose distance is small. A
//! [`TxLshBuilder`] consumes a stream in chunks and finalizes it into a
//! [`TxLsh`] digest, which can be written as text, read back and compared.
//! Every function states what it does over mathematical models of the data,
//! and each statement is proved.

pub mod consts;
pub mod error;
pub mod hash_funcs;
pub mod helper;
pub mod hex;
pub mod laws;
pub mod quartile;
pub mod txlsh_builders;
pub mod txlsh_mod;

pub use crate::error::TxLshError;
pub use crate::helper::{BitPairsTable, BucketKind, ChecksumKind, Version};
pub use crate::txlsh_builders::{default_builder, full_builder, tx_lsh_builder};
pub use crate::txlsh_mod::{TxLsh, TxLshBuilder};
