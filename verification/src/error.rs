//! What can go wrong, by kind.

use vstd::prelude::*;

verus! {

/// Why a block could not be packed.
#[derive(Debug, Clone, Copy, PartialEq, Eq, Structural)]
pub enum EncodeError {
    /// The block has no transaction, so no coinbase.
    MissingCoinbase,
    /// An input lacks the output that it spends, or that output's height
    /// and amount.
    MissingPrevout,
    /// A transaction identifier is not hexadecimal, or shorter than the
    /// prefix that is kept of it.
    InvalidTxid,
    /// A count, an output index or a height is too large for its field.
    FieldOverflow,
    /// Two transactions of the block share their identifier prefix.
    TxidPrefixCollision,
}

/// Bytes that are no packed block.
#[derive(Debug, Clone, Copy, PartialEq, Eq, Structural)]
pub struct CorruptedBlockBytes;

/// Why a traversal gave no result.
#[derive(Debug, Clone, Copy, PartialEq, Eq, Structural)]
pub enum TraversalError {
    /// The transaction identifier is not hexadecimal, or shorter than the
    /// prefix that is kept of it.
    InvalidTxid,
    /// The block of this height is not in the store.
    BlockMissing(u32),
    /// The bytes stored for this height are no packed block, or do not hold
    /// what the traversal came for.
    CorruptedBlockBytes(u32),
    /// More hops than the height of the block that the traversal started in.
    HopLimitExceeded,
}

} // verus!
