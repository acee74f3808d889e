use vstd::prelude::*;

verus! {

/// Why an operation on a single block failed.
#[derive(Clone, Copy, Debug, PartialEq, Eq)]
pub enum BlockError {
    /// The block is in a state that the operation does not accept.
    InvalidState,
    /// The immutable block already carries a duplicate.
    NotPrimary,
}

/// Why a request to the pool failed.
#[derive(Debug, PartialEq, Eq)]
pub enum BlockPoolError {
    /// The number of blocks that were requested and the number available.
    NotEnoughBlocksAvailable(usize, usize),
    InvalidMutableBlock(String),
    FailedToRegisterBlock(String),
    ResetError(String),
    BlockError(BlockError),
}

} // verus!
