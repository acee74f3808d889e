use vstd::prelude::*;

use crate::block::{Block, MutableBlock};
use crate::tokens::SequenceHash;

verus! {

/// What becomes of a block whose content is registered already.
#[derive(Clone, Copy, Debug, PartialEq, Eq)]
pub enum BlockRegistrationDuplicationSetting {
    /// The block is kept as a duplicate of the registered one.
    Allowed,
    /// The block goes back to the pool.
    Disabled,
}

/// Requests that move blocks.
#[verifier::reject_recursive_types(M)]
pub enum PriorityRequest<M> {
    AllocateBlocks(usize),
    RegisterBlocks(Vec<MutableBlock<M>>, BlockRegistrationDuplicationSetting),
    MatchSequenceHashes(Vec<SequenceHash>),
    TouchBlocks(Vec<SequenceHash>),
    Reset,
    ReturnBlock(Vec<Block<M>>),
}

/// Requests that manage the pool.
pub enum ControlRequest<M> {
    AddBlocks(Vec<Block<M>>),
    Status,
    ResetBlocks(Vec<SequenceHash>),
}

/// How many blocks are where.
#[derive(Clone, Copy, Debug, PartialEq, Eq)]
pub struct BlockPoolStatus {
    pub active_blocks: usize,
    pub inactive_blocks: usize,
    pub empty_blocks: usize,
}

/// What became of blocks that were to be reset, by sequence hash.
#[derive(Debug, PartialEq, Eq)]
pub struct ResetBlocksResponse {
    /// Blocks that were cached, and were reset.
    pub reset_blocks: Vec<SequenceHash>,
    /// Hashes under which no block is registered.
    pub not_found: Vec<SequenceHash>,
    /// Blocks that are registered but not cached.
    pub not_reset: Vec<SequenceHash>,
}

/// Answers to requests that manage the pool.
#[derive(Debug, PartialEq, Eq)]
pub enum ControlResponse {
    BlocksAdded,
    Status(BlockPoolStatus),
    ResetBlocks(ResetBlocksResponse),
}

} // verus!
