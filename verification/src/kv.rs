use vstd::prelude::*;

use crate::tokens::{empty_token_block, TokenBlock};

verus! {

/// A block of tokens in the cache, with what decides how long it is kept.
#[derive(Debug, PartialEq, Eq)]
pub struct KvBlock {
    token_block: TokenBlock,
    priority: u32,
    return_tick: u64,
    /// The primary key of eviction: the more reuses are left, the less likely the block is
    /// to be evicted.
    remaining_reuses: u32,
}

#[verifier::ext_equal]
pub struct KvBlockModel {
    pub token_block: TokenBlock,
    pub priority: u32,
    pub return_tick: u64,
    pub remaining_reuses: u32,
}

impl View for KvBlock {
    type V = KvBlockModel;

    closed spec fn view(&self) -> KvBlockModel {
        KvBlockModel {
            token_block: self.token_block,
            priority: self.priority,
            return_tick: self.return_tick,
            remaining_reuses: self.remaining_reuses,
        }
    }
}

impl KvBlockModel {
    /// A block of which nothing but the tokens is known.
    pub open spec fn fresh(token_block: TokenBlock) -> KvBlockModel {
        KvBlockModel { token_block, priority: 0, return_tick: 0, remaining_reuses: 0 }
    }

    /// The block with at least `reuses` reuses left.
    pub open spec fn with_reuses(self, reuses: u32) -> KvBlockModel {
        KvBlockModel {
            remaining_reuses: if self.remaining_reuses < reuses {
                reuses
            } else {
                self.remaining_reuses
            },
            ..self
        }
    }
}

/// The number of reuses left never falls by an update, and is at least what was given.
pub proof fn law_reuses_never_fall(block: KvBlockModel, reuses: u32)
    ensures
        block.with_reuses(reuses).remaining_reuses >= block.remaining_reuses,
        block.with_reuses(reuses).remaining_reuses >= reuses,
{
}

/// Updates of the number of reuses can be made in any order, and repeated.
pub proof fn law_reuses_in_any_order(block: KvBlockModel, first: u32, second: u32)
    ensures
        block.with_reuses(first).with_reuses(second) == block.with_reuses(second).with_reuses(
            first,
        ),
        block.with_reuses(first).with_reuses(first) == block.with_reuses(first),
{
}

impl Default for KvBlock {
    fn default() -> (block: KvBlock)
        ensures
            block@ == KvBlockModel::fresh(empty_token_block()),
    {
        KvBlock {
            token_block: TokenBlock::default(),
            priority: 0,
            return_tick: 0,
            remaining_reuses: 0,
        }
    }
}

impl KvBlock {
    /// Creates a block with the given token block.
    pub fn new(token_block: TokenBlock) -> (block: KvBlock)
        ensures
            block@ == KvBlockModel::fresh(token_block),
    {
        KvBlock { token_block, priority: 0, return_tick: 0, remaining_reuses: 0 }
    }

    /// Replaces the token block.
    pub fn update_token_block(&mut self, token_block: TokenBlock)
        ensures
            final(self)@ == (KvBlockModel { token_block, ..old(self)@ }),
    {
        self.token_block = token_block;
    }

    /// Raises the number of remaining reuses to `new_remaining_reuses` if it is lower.
    pub fn update_remaining_reuses(&mut self, new_remaining_reuses: u32)
        ensures
            final(self)@ == old(self)@.with_reuses(new_remaining_reuses),
    {
        if self.remaining_reuses < new_remaining_reuses {
            self.remaining_reuses = new_remaining_reuses;
        }
    }

    /// The number of remaining reuses.
    pub fn remaining_reuses(&self) -> (reuses: u32)
        ensures
            reuses == self@.remaining_reuses,
    {
        self.remaining_reuses
    }

    /// The token block.
    pub fn token_block(&self) -> (token_block: TokenBlock)
        ensures
            token_block == self@.token_block,
    {
        self.token_block
    }

    /// Puts the block back to its initial state.
    pub fn reset(&mut self)
        ensures
            final(self)@ == KvBlockModel::fresh(empty_token_block()),
    {
        self.token_block = TokenBlock::default();
        self.priority = 0;
        self.return_tick = 0;
        self.remaining_reuses = 0;
    }

    /// Called when the block goes back to the pool, which leaves it as it is.
    pub fn on_return(&mut self)
        ensures
            final(self)@ == old(self)@,
    {
    }
}

/// Configuration of a [`KvBlock`].
pub struct KvBlockConfig {}

/// An update leaves the larger of the two numbers of reuses, and nothing else changes.
pub proof fn law_update_keeps_the_larger(block: KvBlockModel, reuses: u32)
    ensures
        block.with_reuses(reuses).remaining_reuses == block.remaining_reuses
            || block.with_reuses(reuses).remaining_reuses == reuses,
        block.with_reuses(reuses).remaining_reuses >= block.remaining_reuses,
        block.with_reuses(reuses).remaining_reuses >= reuses,
        block.with_reuses(reuses).token_block == block.token_block,
        block.with_reuses(reuses).priority == block.priority,
        block.with_reuses(reuses).return_tick == block.return_tick,
{
}

/// A fresh block has its tokens and nothing else, and a block is reset to no tokens.
pub proof fn law_fresh_block_has_its_tokens_only(token_block: TokenBlock)
    ensures
        KvBlockModel::fresh(token_block).token_block == token_block,
        KvBlockModel::fresh(token_block).priority == 0,
        KvBlockModel::fresh(token_block).return_tick == 0,
        KvBlockModel::fresh(token_block).remaining_reuses == 0,
        empty_token_block().sequence_hash == 0,
        empty_token_block().parent_sequence_hash is None,
{
}

/// What is said of a block is said of its fields.
proof fn law_block_is_what_its_fields_hold(block: KvBlock)
    ensures
        block@.token_block == block.token_block,
        block@.priority == block.priority,
        block@.return_tick == block.return_tick,
        block@.remaining_reuses == block.remaining_reuses,
{
}

} // verus!
