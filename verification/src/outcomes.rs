//! What a single call leaves of the pools, field by field.

use std::sync::Arc;

use vstd::prelude::*;

use crate::active::{
    admits, adopts, gives_up, looks_up, looks_up_parent, registers, well_keyed, ActiveBlockPool,
};
use crate::block::{Block, BlockState, ImmutableBlock, MutableBlock};
use crate::inactive::{InactiveBlockPool, InactiveModel};
use crate::laws::law_taking_back_adds_the_block;
use crate::metadata::BlockMetadata;
use crate::state::{wraps, ResetModel, State, StateModel};
use crate::tokens::SequenceHash;
use crate::weak::WeakBlock;
use tokio::sync::mpsc::UnboundedSender;

verus! {

/// The blocks of a pool are the cached ones and the empty ones, and it holds the identifiers of
/// these and no others.
pub proof fn law_pool_holds_cached_and_empty<M: BlockMetadata>(pool: InactiveModel<M>, id: usize)
    ensures
        pool.len() == pool.cached.len() + pool.empty.len(),
        forall|hash: SequenceHash| #[trigger]
            pool.cached.contains_key(hash) ==> pool.holds(pool.cached[hash].block_id),
        forall|i: int|
            0 <= i < pool.empty.len() ==> pool.holds((#[trigger] pool.empty[i]).block_id),
        pool.holds(id) ==> {
            ||| exists|hash: SequenceHash| #[trigger]
                pool.cached.contains_key(hash) && pool.cached[hash].block_id == id
            ||| exists|i: int|
                0 <= i < pool.empty.len() && (#[trigger] pool.empty[i]).block_id == id
        },
{
}

/// In a well-formed pool each cached block is in the registered state, under the hash of its
/// registration, and each empty one is in the reset state.
pub proof fn law_blocks_are_where_their_state_says<M: BlockMetadata>(pool: &InactiveBlockPool<M>)
    requires
        pool.wf(),
    ensures
        forall|hash: SequenceHash| #[trigger]
            pool@.cached.contains_key(hash) ==> (pool@.cached[hash].state matches
                BlockState::Registered(handle) && handle.sequence_hash == hash),
        forall|i: int| 0 <= i < pool@.empty.len() ==> (#[trigger] pool@.empty[i]).state is Reset,
        pool@.cached.dom().finite(),
        pool@.cached.len() + pool@.empty.len() <= usize::MAX,
{
    pool.law_pool_is_valid();
}

/// A registered block that comes back is cached under its hash as it is, but for the hook of
/// the return at the next tick, where nothing is cached there. Any other block is queued last
/// among the empty ones in the reset state. No other block is touched.
pub proof fn law_returned_block_is_cached_or_emptied<M: BlockMetadata>(
    pool: InactiveModel<M>,
    block: Block<M>,
)
    ensures
        ({
            let after = pool.return_block(block);
            let tick = (pool.return_tick + 1) as u64;
            &&& after.return_tick == tick
            &&& after.total_blocks == pool.total_blocks
            &&& after.total_counter == pool.total_counter
            &&& after.available_counter == pool.available_counter
            &&& if block.state matches BlockState::Registered(handle)
                && !pool.cached.contains_key(handle.sequence_hash) {
                let hash = block.state->Registered_0.sequence_hash;
                &&& after.empty == pool.empty
                &&& after.cached == pool.cached.insert(hash, after.cached[hash])
                &&& after.cached[hash].block_id == block.block_id
                &&& after.cached[hash].state == block.state
                &&& after.cached[hash].metadata == block.metadata.returned(tick)
            } else {
                &&& after.cached == pool.cached
                &&& after.empty.len() == pool.empty.len() + 1
                &&& after.empty.drop_last() == pool.empty
                &&& after.empty.last().block_id == block.block_id
                &&& after.empty.last().state is Reset
                &&& after.empty.last().metadata == (if block.state is Reset {
                    block.metadata.returned(tick)
                } else {
                    block.metadata.returned(tick).cleared()
                })
            }
        }),
{
    let after = pool.return_block(block);
    assert(after.empty.drop_last() =~= pool.empty || after.empty == pool.empty);
}

/// Added blocks are queued behind the empty ones in their order, in the reset state and with
/// their metadata reset, and are counted. What was there stays.
pub proof fn law_added_blocks_are_queued_and_counted<M: BlockMetadata>(
    pool: InactiveModel<M>,
    blocks: Seq<Block<M>>,
)
    ensures
        ({
            let after = pool.add_blocks(blocks);
            &&& after.cached == pool.cached
            &&& after.return_tick == pool.return_tick
            &&& after.total_blocks == (pool.total_blocks + blocks.len())
                % 0x1_0000_0000_0000_0000
            &&& after.total_counter == pool.total_counter
            &&& after.available_counter == pool.available_counter
            &&& after.empty.len() == pool.empty.len() + blocks.len()
            &&& forall|i: int|
                0 <= i < pool.empty.len() ==> #[trigger] after.empty[i] == pool.empty[i]
            &&& forall|i: int|
                #![trigger blocks[i]]
                0 <= i < blocks.len() ==> {
                    let added = after.empty[pool.empty.len() + i];
                    &&& added.block_id == blocks[i].block_id
                    &&& added.state is Reset
                    &&& added.metadata == blocks[i].metadata.cleared()
                }
        }),
{
}

/// Counting blocks raises the total, and nothing else.
pub proof fn law_counting_raises_the_total<M: BlockMetadata>(pool: InactiveModel<M>, count: nat)
    ensures
        ({
            let after = pool.count_blocks(count);
            &&& after.total_blocks == (pool.total_blocks + count) % 0x1_0000_0000_0000_0000
            &&& after.cached == pool.cached
            &&& after.empty == pool.empty
            &&& after.return_tick == pool.return_tick
            &&& after.total_counter == pool.total_counter
            &&& after.available_counter == pool.available_counter
        }),
{
}

/// Taking a cached block leaves all others as they were.
pub proof fn law_taking_leaves_the_others<M: BlockMetadata>(
    pool: InactiveModel<M>,
    hash: SequenceHash,
)
    ensures
        ({
            let after = pool.take(hash);
            &&& after.cached == pool.cached.remove(hash)
            &&& after.empty == pool.empty
            &&& after.return_tick == pool.return_tick
            &&& after.total_blocks == pool.total_blocks
            &&& after.total_counter == pool.total_counter
            &&& after.available_counter == pool.available_counter
        }),
{
}

/// A list of hashes matches the blocks that are cached under its first hashes, one for each,
/// until a hash finds none any more. Exactly those blocks leave the pool, and they leave it as
/// they were cached.
pub proof fn law_matching_takes_the_longest_prefix<M: BlockMetadata>(
    pool: InactiveModel<M>,
    hashes: Seq<SequenceHash>,
    blocks: Seq<Block<M>>,
    after: InactiveModel<M>,
)
    requires
        pool.matches_prefix(hashes, blocks, after),
    ensures
        blocks.len() <= hashes.len(),
        forall|i: int|
            #![trigger blocks[i]]
            0 <= i < blocks.len() ==> pool.cached.contains_key(hashes[i]) && blocks[i]
                == pool.cached[hashes[i]],
        forall|i: int, j: int|
            #![trigger hashes[i], hashes[j]]
            0 <= i < j < blocks.len() ==> hashes[i] != hashes[j],
        blocks.len() < hashes.len() ==> {
            let next = hashes[blocks.len() as int];
            ||| !pool.cached.contains_key(next)
            ||| exists|i: int| 0 <= i < blocks.len() && #[trigger] hashes[i] == next
        },
        forall|hash: SequenceHash|
            #![trigger after.cached.contains_key(hash)]
            #![trigger pool.cached.contains_key(hash)]
            after.cached.contains_key(hash) <==> pool.cached.contains_key(hash) && !(exists|i: int|
                0 <= i < blocks.len() && #[trigger] hashes[i] == hash),
        forall|hash: SequenceHash| #[trigger]
            after.cached.contains_key(hash) ==> after.cached[hash] == pool.cached[hash],
        after.empty == pool.empty,
        after.return_tick == pool.return_tick,
        after.total_blocks == pool.total_blocks,
        after.total_counter == pool.total_counter,
        after.available_counter == pool.available_counter,
{
    let found = hashes.take(blocks.len() as int);
    assert forall|i: int, j: int|
        #![trigger hashes[i], hashes[j]]
        0 <= i < j < blocks.len() implies hashes[i] != hashes[j] by {
        assert(found[i] == hashes[i] && found[j] == hashes[j]);
    }
    assert forall|hash: SequenceHash| #[trigger] found.to_set().contains(hash) == (exists|i: int|
        0 <= i < blocks.len() && #[trigger] hashes[i] == hash) by {
        if found.contains(hash) {
            let i = choose|i: int| 0 <= i < found.len() && found[i] == hash;
            assert(hashes[i] == hash);
        }
        if exists|i: int| 0 <= i < blocks.len() && #[trigger] hashes[i] == hash {
            let i = choose|i: int| 0 <= i < blocks.len() && #[trigger] hashes[i] == hash;
            assert(found[i] == hash);
        }
    }
}

/// A pool with empty blocks hands out the first of them. One that has only cached blocks hands
/// out one of which the metadata goes before that of every other, in the reset state and no
/// longer cached; between blocks of equal metadata the smaller hash goes first. The block keeps
/// its identifier, and no other block is touched.
pub proof fn law_handed_out_block_is_the_first<M: BlockMetadata>(pool: InactiveModel<M>)
    requires
        pool.valid(),
    ensures
        ({
            let after = pool.acquire();
            let tick = (pool.return_tick + 1) as u64;
            &&& after.total_blocks == pool.total_blocks
            &&& after.total_counter == pool.total_counter
            &&& after.available_counter == pool.available_counter
            &&& if pool.empty.len() > 0 {
                &&& pool.free_block() matches Some(block) && {
                    &&& block.block_id == pool.empty[0].block_id
                    &&& block.state == pool.empty[0].state
                    &&& block.metadata == pool.empty[0].metadata.acquired(tick)
                }
                &&& after.empty == pool.empty.drop_first()
                &&& after.cached == pool.cached
                &&& after.return_tick == tick
            } else if pool.cached.len() > 0 {
                &&& after.empty == pool.empty
                &&& after.return_tick == tick
                &&& exists|victim: SequenceHash| #[trigger]
                    pool.cached.contains_key(victim) && {
                        let evicted = pool.cached[victim];
                        &&& after.cached == pool.cached.remove(victim)
                        &&& pool.free_block() matches Some(block) && {
                            &&& block.block_id == evicted.block_id
                            &&& block.state is Reset
                            &&& block.metadata == evicted.metadata.cleared().acquired(tick)
                        }
                        &&& forall|other: SequenceHash| #[trigger]
                            pool.cached.contains_key(other) ==> {
                                &&& evicted.metadata.precedes(pool.cached[other].metadata)
                                &&& evicted.metadata == pool.cached[other].metadata ==> victim
                                    <= other
                            }
                    }
            } else {
                pool.free_block() is None && after == pool
            }
        }),
{
    if pool.empty.len() == 0 && pool.cached.len() > 0 {
        pool.law_victim_evicts_first();
        let victim = pool.victim();
        assert(pool.cached.contains_key(victim));
        assert forall|other: SequenceHash| #[trigger] pool.cached.contains_key(other) implies {
            &&& pool.cached[victim].metadata.precedes(pool.cached[other].metadata)
            &&& pool.cached[victim].metadata == pool.cached[other].metadata ==> victim <= other
        } by {
            assert(pool.key(victim).at_most(pool.key(other)));
        }
    }
}

/// Handing out blocks together is handing out one, and then the others, in this order; and it
/// is handing out all but one, and then that one.
pub proof fn law_handing_out_many_is_handing_out_each<M: BlockMetadata>(
    pool: InactiveModel<M>,
    count: nat,
)
    ensures
        pool.acquire_many(0) == pool,
        pool.free_blocks(0).len() == 0,
        pool.acquire_many(count + 1) == pool.acquire_many(count).acquire(),
        pool.free_blocks(count + 1) == pool.free_blocks(count).push(
            pool.acquire_many(count).free_block()->0,
        ),
        pool.acquire_many(count + 1) == pool.acquire().acquire_many(count),
        pool.free_blocks(count + 1) == seq![pool.free_block()->0] + pool.acquire().free_blocks(
            count,
        ),
    decreases count,
{
    if count == 0 {
        assert(pool.acquire_many(1) == pool.acquire_many(0).acquire());
        assert(pool.free_blocks(1) == pool.free_blocks(0).push(
            pool.acquire_many(0).free_block()->0,
        ));
        assert(pool.free_blocks(1) =~= seq![pool.free_block()->0]);
        assert(pool.acquire().free_blocks(0) =~= Seq::<Block<M>>::empty());
    } else {
        let fewer = (count - 1) as nat;
        law_handing_out_many_is_handing_out_each(pool, fewer);
        let next = pool.acquire();
        assert(pool.acquire_many(count) == next.acquire_many(fewer));
        assert(next.acquire_many(count) == next.acquire_many(fewer).acquire());
        assert(next.free_blocks(count) == next.free_blocks(fewer).push(
            next.acquire_many(fewer).free_block()->0,
        ));
        assert(pool.free_blocks(count + 1) =~= seq![pool.free_block()->0] + next.free_blocks(
            count,
        ));
    }
}

/// A lookup finds the block to which the reference under the hash refers, as a primary handle,
/// and then changes nothing. Where it finds none, no reference is left under the hash, and one
/// that was there was found dead.
pub proof fn law_lookup_follows_the_reference<M>(
    before: Map<SequenceHash, WeakBlock<M>>,
    hash: SequenceHash,
    found: Option<ImmutableBlock<M>>,
    after: Map<SequenceHash, WeakBlock<M>>,
)
    requires
        looks_up(before, hash, found, after),
    ensures
        found matches Some(handle) ==> {
            &&& before.contains_key(hash)
            &&& before[hash].answers(Some(handle.block))
            &&& handle.block == before[hash].target()
            &&& handle.duplicate is None
            &&& after == before
        },
        found is None ==> {
            &&& before.contains_key(hash) ==> before[hash].answers(None)
            &&& !after.contains_key(hash)
            &&& after == before.remove(hash)
        },
{
}

/// Registering a block gives a primary handle, and the reference under its hash refers to what
/// the handle holds. That is the block found alive there, whose reference stays; or else the
/// very block that was given, with its channel, which holds the predecessor found alive under
/// its parent hash, or holds what it held before. Under other hashes at most the reference to a
/// predecessor that was found dead is lost, and none is added or changed.
pub proof fn law_registering_shares_the_block<M>(
    before: Map<SequenceHash, WeakBlock<M>>,
    block: MutableBlock<M>,
    hash: SequenceHash,
    handle: ImmutableBlock<M>,
    after: Map<SequenceHash, WeakBlock<M>>,
)
    requires
        registers(before, block, hash, handle, after),
    ensures
        handle.duplicate is None,
        after.contains_key(hash),
        after[hash].target() == handle.block,
        ({
            ||| {
                &&& before.contains_key(hash)
                &&& before[hash].answers(Some(handle.block))
                &&& handle.block == before[hash].target()
                &&& after[hash] == before[hash]
            }
            ||| {
                &&& before.contains_key(hash) ==> before[hash].answers(None)
                &&& handle.block@ == block@
                &&& handle.block.channel() == block.channel()
                &&& match (block@->0).parent_hash() {
                    Some(parent_hash) => {
                        ||| {
                            &&& before.contains_key(parent_hash)
                            &&& before[parent_hash].answers(handle.block.parent())
                            &&& handle.block.parent() == Some(before[parent_hash].target())
                        }
                        ||| {
                            &&& before.contains_key(parent_hash) ==> before[parent_hash].answers(
                                None,
                            )
                            &&& handle.block.parent() == block.parent()
                        }
                    },
                    None => handle.block.parent() == block.parent(),
                }
            }
        }),
        forall|other: SequenceHash| #[trigger]
            after.contains_key(other) && other != hash ==> before.contains_key(other)
                && after[other] == before[other],
        forall|other: SequenceHash| #[trigger]
            before.contains_key(other) && !after.contains_key(other) ==> (block@->0).parent_hash()
                == Some(other) && before[other].answers(None),
{
    let (parent, between, shared) = choose|
        parent: Option<ImmutableBlock<M>>,
        between: Map<SequenceHash, WeakBlock<M>>,
        shared: Arc<MutableBlock<M>>,
    |
        {
            &&& #[trigger] looks_up_parent(before, block@->0, parent, between)
            &&& adopts(block, parent, *shared)
            &&& #[trigger] admits(between, hash, shared, handle, after)
        };
    assert forall|other: SequenceHash| #[trigger]
        after.contains_key(other) && other != hash implies before.contains_key(other)
        && after[other] == before[other] by {
        assert(between.contains_key(other));
    }
    assert forall|other: SequenceHash| #[trigger]
        before.contains_key(other) && !after.contains_key(other) implies (
    block@->0).parent_hash() == Some(other) && before[other].answers(None) by {
        assert(!between.contains_key(other));
    }
}

/// A block that is given up keeps its identifier. While the reference under its hash is found
/// alive it is reset, and the references stay; otherwise it stays as it is, and no reference is
/// left under its hash. No other reference is touched.
pub proof fn law_given_up_block_is_reset_while_shared<M: BlockMetadata>(
    before: Map<SequenceHash, WeakBlock<M>>,
    block: Block<M>,
    left: Block<M>,
    after: Map<SequenceHash, WeakBlock<M>>,
)
    requires
        gives_up(before, block, left, after),
    ensures
        left.block_id == block.block_id,
        ({
            ||| {
                &&& block.hash() matches Some(hash) && before.contains_key(hash)
                    && before[hash].answers(Some(before[hash].target()))
                &&& left.state is Reset
                &&& left.metadata == block.metadata.cleared()
                &&& after == before
            }
            ||| {
                &&& left == block
                &&& block.hash() matches Some(hash) ==> {
                    &&& before.contains_key(hash) ==> before[hash].answers(None)
                    &&& !after.contains_key(hash)
                    &&& after == before.remove(hash)
                }
                &&& block.hash() is None ==> after == before
            }
        }),
{
    if block.hash() matches Some(hash) && !before.contains_key(hash) {
        assert(before.remove(block.hash()->0) =~= before);
    }
}

/// In a well-formed active pool each reference refers to a handle that holds a block in the
/// registered state, under the hash of its registration.
pub proof fn law_references_stand_under_their_hash<M: BlockMetadata>(pool: &ActiveBlockPool<M>)
    ensures
        pool.wf() <==> well_keyed(pool@),
        pool.wf() ==> forall|hash: SequenceHash| #[trigger]
            pool@.contains_key(hash) ==> (pool@[hash].target()@ matches Some(block) && (
            block.state matches BlockState::Registered(handle) && handle.sequence_hash == hash)),
{
}

/// A block that comes back to the pools goes to the inactive one: emptied while a block of its
/// hash is found alive, and otherwise as the inactive pool takes it back. In the second case no
/// reference is left under its hash. Nothing else of the active pool changes.
pub proof fn law_taken_back_block_goes_to_the_inactive_pool<M: BlockMetadata>(
    before: StateModel<M>,
    block: Block<M>,
    after: StateModel<M>,
)
    requires
        before.takes_back(block, after),
    ensures
        after.return_tx == before.return_tx,
        ({
            ||| {
                &&& block.hash() matches Some(hash) && before.active.contains_key(hash)
                    && before.active[hash].answers(Some(before.active[hash].target()))
                &&& after.active == before.active
                &&& after.inactive.cached == before.inactive.cached
                &&& after.inactive.empty.len() == before.inactive.empty.len() + 1
                &&& after.inactive.empty.drop_last() == before.inactive.empty
                &&& after.inactive.empty.last().block_id == block.block_id
                &&& after.inactive.empty.last().state is Reset
                &&& after.inactive.empty.last().metadata
                    == block.metadata.cleared().returned((before.inactive.return_tick + 1) as u64)
                &&& after.inactive.return_tick == (before.inactive.return_tick + 1) as u64
                &&& after.inactive.total_blocks == before.inactive.total_blocks
                &&& after.inactive.total_counter == before.inactive.total_counter
                &&& after.inactive.available_counter == before.inactive.available_counter
            }
            ||| {
                &&& after.inactive == before.inactive.return_block(block)
                &&& block.hash() matches Some(hash) ==> {
                    &&& before.active.contains_key(hash) ==> before.active[hash].answers(None)
                    &&& after.active == before.active.remove(hash)
                }
                &&& block.hash() is None ==> after.active == before.active
            }
        }),
{
    let left = choose|left: Block<M>|
        {
            &&& #[trigger] gives_up(before.active, block, left, after.active)
            &&& after.inactive == before.inactive.return_block(left)
            &&& after.return_tx == before.return_tx
        };
    law_given_up_block_is_reset_while_shared(before.active, block, left, after.active);
    law_returned_block_is_cached_or_emptied(before.inactive, left);
}

/// After blocks were taken back the inactive pool has as many more as were given, and holds
/// exactly the identifiers that it held before and those of the given blocks. References of the
/// active pool are at most lost.
pub proof fn law_taking_back_all_adds_every_block<M: BlockMetadata>(
    before: StateModel<M>,
    blocks: Seq<Block<M>>,
    after: StateModel<M>,
)
    requires
        before.inactive.valid(),
        before.inactive.len() + blocks.len() <= usize::MAX,
        before.takes_back_all(blocks, after),
    ensures
        after.inactive.valid(),
        after.inactive.cached.len() + after.inactive.empty.len() == before.inactive.cached.len()
            + before.inactive.empty.len() + blocks.len(),
        forall|id: usize| #[trigger]
            after.inactive.holds(id) <==> before.inactive.holds(id) || exists|i: int|
                0 <= i < blocks.len() && (#[trigger] blocks[i]).block_id == id,
        forall|hash: SequenceHash| #[trigger]
            after.active.contains_key(hash) ==> before.active.contains_key(hash)
                && after.active[hash] == before.active[hash],
        after.inactive.total_blocks == before.inactive.total_blocks,
        before.inactive.return_tick + blocks.len() <= u64::MAX ==> after.inactive.return_tick
            == before.inactive.return_tick + blocks.len(),
        after.return_tx == before.return_tx,
    decreases blocks.len(),
{
    if blocks.len() > 0 {
        let fewer = blocks.drop_last();
        let between = choose|between: StateModel<M>|
            {
                &&& before.takes_back_all(fewer, between)
                &&& #[trigger] between.takes_back(blocks.last(), after)
            };
        law_taking_back_all_adds_every_block(before, fewer, between);
        law_taking_back_adds_the_block(between, blocks.last(), after);
        let left = choose|left: Block<M>|
            {
                &&& #[trigger] gives_up(between.active, blocks.last(), left, after.active)
                &&& after.inactive == between.inactive.return_block(left)
                &&& after.return_tx == between.return_tx
            };
        law_returned_block_is_cached_or_emptied(between.inactive, left);
        assert forall|id: usize| #[trigger]
            after.inactive.holds(id) <==> before.inactive.holds(id) || exists|i: int|
                0 <= i < blocks.len() && (#[trigger] blocks[i]).block_id == id by {
            assert(between.inactive.holds(id) <==> before.inactive.holds(id) || exists|i: int|
                0 <= i < fewer.len() && (#[trigger] fewer[i]).block_id == id);
            if exists|i: int| 0 <= i < fewer.len() && (#[trigger] fewer[i]).block_id == id {
                let i = choose|i: int|
                    0 <= i < fewer.len() && (#[trigger] fewer[i]).block_id == id;
                assert(blocks[i].block_id == id);
            }
            if exists|i: int| 0 <= i < blocks.len() && (#[trigger] blocks[i]).block_id == id {
                let i = choose|i: int|
                    0 <= i < blocks.len() && (#[trigger] blocks[i]).block_id == id;
                if i < fewer.len() {
                    assert(fewer[i].block_id == id);
                }
            }
            assert(blocks[blocks.len() - 1] == blocks.last());
        }
    }
}

/// Taking back blocks together is taking back all but the last, and then the last; taking back
/// none changes nothing.
pub proof fn law_taking_back_all_is_taking_back_each<M: BlockMetadata>(
    before: StateModel<M>,
    blocks: Seq<Block<M>>,
    block: Block<M>,
    after: StateModel<M>,
)
    ensures
        before.takes_back_all(Seq::empty(), after) <==> after == before,
        before.takes_back_all(blocks.push(block), after) <==> exists|between: StateModel<M>|
            {
                &&& before.takes_back_all(blocks, between)
                &&& #[trigger] between.takes_back(block, after)
            },
{
    assert(blocks.push(block).drop_last() =~= blocks);
    assert(blocks.push(block).last() == block);
}

/// Handles stand for blocks one by one, in their order: each holds its block, no other block
/// alive, and sends its block back on the channel.
pub proof fn law_handles_hold_their_blocks<M>(
    handles: Seq<MutableBlock<M>>,
    blocks: Seq<Block<M>>,
    channel: UnboundedSender<Block<M>>,
)
    requires
        wraps(handles, blocks, channel),
    ensures
        handles.len() == blocks.len(),
        forall|i: int|
            #![trigger handles[i]]
            0 <= i < handles.len() ==> {
                &&& handles[i]@ == Some(blocks[i])
                &&& handles[i].parent() is None
                &&& handles[i].channel() == channel
            },
{
}

/// A request to reset a hash takes a block that is registered and cached under it, and queues
/// it with the empty ones in the reset state, at the next tick. Otherwise it does nothing.
pub proof fn law_reset_request_empties_the_cached_block<M: BlockMetadata>(
    pool: InactiveModel<M>,
    hash: SequenceHash,
    registered: bool,
)
    ensures
        ({
            let after = pool.reset_cached(hash, registered);
            let tick = (pool.return_tick + 1) as u64;
            if registered && pool.cached.contains_key(hash) {
                &&& after.cached == pool.cached.remove(hash)
                &&& after.empty.len() == pool.empty.len() + 1
                &&& after.empty.drop_last() == pool.empty
                &&& after.empty.last().block_id == pool.cached[hash].block_id
                &&& after.empty.last().state is Reset
                &&& after.empty.last().metadata == pool.cached[hash].metadata.cleared().returned(
                    tick,
                )
                &&& after.return_tick == tick
                &&& after.total_blocks == pool.total_blocks
                &&& after.total_counter == pool.total_counter
                &&& after.available_counter == pool.available_counter
            } else {
                after == pool
            }
        }),
{
    if registered && pool.cached.contains_key(hash) {
        law_returned_block_is_cached_or_emptied(pool.take(hash), pool.cached[hash].cleared());
    }
}

/// Each hash is added at the end of one list: of those not found where no block is registered
/// under it, of those reset where one is and it is cached, and of those not reset where one is
/// that is not cached. The other lists stay.
pub proof fn law_report_says_what_became_of_a_hash(
    report: ResetModel,
    hash: SequenceHash,
    registered: bool,
    cached: bool,
)
    ensures
        report.report(hash, registered, cached).not_found == (if registered {
            report.not_found
        } else {
            report.not_found.push(hash)
        }),
        report.report(hash, registered, cached).reset_blocks == (if registered && cached {
            report.reset_blocks.push(hash)
        } else {
            report.reset_blocks
        }),
        report.report(hash, registered, cached).not_reset == (if registered && !cached {
            report.not_reset.push(hash)
        } else {
            report.not_reset
        }),
        ResetModel::none().not_found.len() == 0,
        ResetModel::none().reset_blocks.len() == 0,
        ResetModel::none().not_reset.len() == 0,
{
}

/// A request to reset hashes deals with one after the other: the last is dealt with in the pool
/// that the earlier ones left.
pub proof fn law_resetting_all_is_resetting_each<M: BlockMetadata>(
    pool: InactiveModel<M>,
    hashes: Seq<SequenceHash>,
    registered: Seq<bool>,
    hash: SequenceHash,
    known: bool,
)
    ensures
        pool.reset_all_cached(Seq::empty(), Seq::empty()) == pool,
        ResetModel::report_all(pool, Seq::empty(), Seq::empty()) == ResetModel::none(),
        pool.reset_all_cached(hashes.push(hash), registered.push(known)) == pool.reset_all_cached(
            hashes,
            registered,
        ).reset_cached(hash, known),
        ResetModel::report_all(pool, hashes.push(hash), registered.push(known))
            == ResetModel::report_all(pool, hashes, registered).report(
            hash,
            known,
            pool.reset_all_cached(hashes, registered).cached.contains_key(hash),
        ),
{
    assert(hashes.push(hash).drop_last() =~= hashes);
    assert(registered.push(known).drop_last() =~= registered);
}

/// A report lists as not found only what was answered with no, as reset only what was answered
/// with yes and cached in the pool, and as not reset only what was answered with yes.
pub proof fn law_report_agrees_with_the_answers<M: BlockMetadata>(
    pool: InactiveModel<M>,
    hashes: Seq<SequenceHash>,
    registered: Seq<bool>,
)
    requires
        registered.len() == hashes.len(),
    ensures
        ({
            let report = ResetModel::report_all(pool, hashes, registered);
            &&& forall|h: SequenceHash| #[trigger]
                report.not_found.contains(h) ==> exists|i: int|
                    0 <= i < hashes.len() && #[trigger] hashes[i] == h && !registered[i]
            &&& forall|h: SequenceHash| #[trigger]
                report.reset_blocks.contains(h) ==> pool.cached.contains_key(h) && exists|i: int|
                    0 <= i < hashes.len() && #[trigger] hashes[i] == h && registered[i]
            &&& forall|h: SequenceHash| #[trigger]
                report.not_reset.contains(h) ==> exists|i: int|
                    0 <= i < hashes.len() && #[trigger] hashes[i] == h && registered[i]
        }),
        forall|h: SequenceHash| #[trigger]
            pool.reset_all_cached(hashes, registered).cached.contains_key(h)
                ==> pool.cached.contains_key(h),
    decreases hashes.len(),
{
    if hashes.len() > 0 {
        let earlier = hashes.drop_last();
        let known = registered.drop_last();
        let hash = hashes.last();
        law_report_agrees_with_the_answers(pool, earlier, known);
        let so_far = ResetModel::report_all(pool, earlier, known);
        let report = ResetModel::report_all(pool, hashes, registered);
        law_reset_request_empties_the_cached_block(
            pool.reset_all_cached(earlier, known),
            hash,
            registered.last(),
        );
        assert(hashes[hashes.len() - 1] == hash);
        assert forall|i: int| 0 <= i < earlier.len() implies #[trigger] hashes[i] == earlier[i]
            && registered[i] == known[i] by {}
        assert forall|h: SequenceHash| #[trigger] report.not_found.contains(h) implies exists|
            i: int,
        |
            0 <= i < hashes.len() && #[trigger] hashes[i] == h && !registered[i] by {
            lemma_in_pushed(so_far.not_found, hash, h);
            if so_far.not_found.contains(h) {
                let i = choose|i: int|
                    0 <= i < earlier.len() && #[trigger] earlier[i] == h && !known[i];
                assert(hashes[i] == h);
            }
        }
        assert forall|h: SequenceHash| #[trigger]
            report.reset_blocks.contains(h) implies pool.cached.contains_key(h) && exists|i: int|
            0 <= i < hashes.len() && #[trigger] hashes[i] == h && registered[i] by {
            lemma_in_pushed(so_far.reset_blocks, hash, h);
            if so_far.reset_blocks.contains(h) {
                let i = choose|i: int|
                    0 <= i < earlier.len() && #[trigger] earlier[i] == h && known[i];
                assert(hashes[i] == h);
            }
        }
        assert forall|h: SequenceHash| #[trigger] report.not_reset.contains(h) implies exists|
            i: int,
        |
            0 <= i < hashes.len() && #[trigger] hashes[i] == h && registered[i] by {
            lemma_in_pushed(so_far.not_reset, hash, h);
            if so_far.not_reset.contains(h) {
                let i = choose|i: int|
                    0 <= i < earlier.len() && #[trigger] earlier[i] == h && known[i];
                assert(hashes[i] == h);
            }
        }
    }
}

/// What is in a sequence with one more element is that element or was there before.
proof fn lemma_in_pushed<A>(seq: Seq<A>, last: A, a: A)
    ensures
        seq.push(last).contains(a) ==> seq.contains(a) || a == last,
{
    if seq.push(last).contains(a) {
        let i = choose|i: int| 0 <= i < seq.push(last).len() && seq.push(last)[i] == a;
        if i < seq.len() {
            assert(seq[i] == a);
        }
    }
}

/// There is room for more blocks and ticks as long as the counts fit the machine.
pub proof fn law_room_is_what_fits_the_machine<M: BlockMetadata>(
    state: &State<M>,
    blocks: nat,
    ticks: nat,
)
    ensures
        state.has_room(blocks, ticks) <==> {
            &&& state@.inactive.cached.len() + state@.inactive.empty.len() + blocks <= usize::MAX
            &&& state@.inactive.return_tick + ticks <= u64::MAX
        },
        state@.active == state.active@,
        state@.inactive == state.inactive@,
        state@.return_tx == state.return_tx,
{
}

} // verus!
