//! What holds of the pools as a whole.

use vstd::prelude::*;

use crate::active::gives_up;
use crate::block::Block;
use crate::inactive::InactiveModel;
use crate::metadata::BlockMetadata;
use crate::state::{ResetModel, StateModel};
use crate::tokens::SequenceHash;

verus! {

impl<M: BlockMetadata> InactiveModel<M> {
    /// No two blocks of the pool have the same identifier.
    pub open spec fn distinct(self) -> bool {
        &&& forall|a: SequenceHash, b: SequenceHash|
            #![trigger self.cached[a], self.cached[b]]
            self.cached.contains_key(a) && self.cached.contains_key(b) && a != b
                ==> self.cached[a].block_id != self.cached[b].block_id
        &&& forall|i: int, j: int|
            #![trigger self.empty[i], self.empty[j]]
            0 <= i < j < self.empty.len() ==> self.empty[i].block_id != self.empty[j].block_id
        &&& forall|a: SequenceHash, i: int|
            #![trigger self.cached[a], self.empty[i]]
            self.cached.contains_key(a) && 0 <= i < self.empty.len() ==> self.cached[a].block_id
                != self.empty[i].block_id
    }
}

proof fn lemma_push_holds<M: BlockMetadata>(pool: InactiveModel<M>, block: Block<M>, id: usize)
    ensures
        (InactiveModel { empty: pool.empty.push(block), ..pool }).holds(id) <==> pool.holds(id)
            || id == block.block_id,
{
    let after = InactiveModel { empty: pool.empty.push(block), ..pool };
    if after.holds(id) && !(exists|h: SequenceHash| #[trigger]
        after.cached.contains_key(h) && after.cached[h].block_id == id) {
        let i = choose|i: int| 0 <= i < after.empty.len() && #[trigger] after.empty[i].block_id == id;
        if i < pool.empty.len() {
            assert(pool.empty[i].block_id == id);
        }
    }
    if pool.holds(id) && !(exists|h: SequenceHash| #[trigger]
        pool.cached.contains_key(h) && pool.cached[h].block_id == id) {
        let i = choose|i: int| 0 <= i < pool.empty.len() && #[trigger] pool.empty[i].block_id == id;
        assert(after.empty[i].block_id == id);
    }
    if exists|h: SequenceHash| #[trigger]
        pool.cached.contains_key(h) && pool.cached[h].block_id == id {
        let h = choose|h: SequenceHash| #[trigger]
            pool.cached.contains_key(h) && pool.cached[h].block_id == id;
        assert(after.cached.contains_key(h));
    }
    assert(after.empty[pool.empty.len() as int].block_id == block.block_id);
}

proof fn lemma_cache_holds<M: BlockMetadata>(
    pool: InactiveModel<M>,
    hash: SequenceHash,
    block: Block<M>,
    id: usize,
)
    requires
        !pool.cached.contains_key(hash),
    ensures
        (InactiveModel { cached: pool.cached.insert(hash, block), ..pool }).holds(id)
            <==> pool.holds(id) || id == block.block_id,
{
    let after = InactiveModel { cached: pool.cached.insert(hash, block), ..pool };
    assert(after.cached.contains_key(hash));
    assert(after.cached[hash] == block);
    if exists|h: SequenceHash| #[trigger]
        after.cached.contains_key(h) && after.cached[h].block_id == id {
        let h = choose|h: SequenceHash| #[trigger]
            after.cached.contains_key(h) && after.cached[h].block_id == id;
        if h != hash {
            assert(pool.cached.contains_key(h));
        }
    }
    if exists|h: SequenceHash| #[trigger]
        pool.cached.contains_key(h) && pool.cached[h].block_id == id {
        let h = choose|h: SequenceHash| #[trigger]
            pool.cached.contains_key(h) && pool.cached[h].block_id == id;
        assert(after.cached.contains_key(h));
    }
    assert(after.empty == pool.empty);
}

/// A block that comes back is in the pool afterwards, together with all that were there
/// before: no block is lost, and none appears out of nowhere.
pub proof fn law_return_adds_the_block<M: BlockMetadata>(pool: InactiveModel<M>, block: Block<M>)
    requires
        pool.valid(),
        pool.len() < usize::MAX,
    ensures
        pool.return_block(block).valid(),
        pool.return_block(block).len() == pool.len() + 1,
        pool.return_block(block).total_blocks == pool.total_blocks,
        forall|id: usize| #[trigger]
            pool.return_block(block).holds(id) <==> pool.holds(id) || id == block.block_id,
{
    let tick = pool.next_tick();
    let ticked = InactiveModel { return_tick: tick, ..pool };
    let marked = block.returned(tick);
    let after = pool.return_block(block);
    assert forall|id: usize| #[trigger] after.holds(id) <==> pool.holds(id) || id
        == block.block_id by {
        assert(ticked.holds(id) == pool.holds(id));
        lemma_push_holds(ticked, marked, id);
        lemma_push_holds(ticked, marked.cleared(), id);
        if let Some(hash) = marked.hash() {
            if !pool.cached.contains_key(hash) {
                lemma_cache_holds(ticked, hash, marked, id);
            }
        }
    }
}

/// A block that was not in the pool can come back without two blocks sharing an identifier.
pub proof fn law_return_keeps_blocks_distinct<M: BlockMetadata>(
    pool: InactiveModel<M>,
    block: Block<M>,
)
    requires
        pool.distinct(),
        !pool.holds(block.block_id),
    ensures
        pool.return_block(block).distinct(),
{
    let after = pool.return_block(block);
    assert forall|a: SequenceHash| #[trigger] pool.cached.contains_key(a) implies pool.cached[a].block_id
        != block.block_id by {}
    assert forall|i: int| 0 <= i < pool.empty.len() implies (#[trigger] pool.empty[i]).block_id
        != block.block_id by {}
}

/// Returning blocks adds as many blocks as there are.
pub proof fn law_return_all_adds_all<M: BlockMetadata>(
    pool: InactiveModel<M>,
    blocks: Seq<Block<M>>,
)
    requires
        pool.valid(),
        pool.len() + blocks.len() <= usize::MAX,
    ensures
        pool.return_blocks(blocks).valid(),
        pool.return_blocks(blocks).len() == pool.len() + blocks.len(),
        pool.return_blocks(blocks).total_blocks == pool.total_blocks,
    decreases blocks.len(),
{
    if blocks.len() > 0 {
        law_return_all_adds_all(pool, blocks.drop_last());
        law_return_adds_the_block(pool.return_blocks(blocks.drop_last()), blocks.last());
    }
}

/// Returning blocks together is returning each of them in the order in which they are given,
/// and each return counts one tick; returning none changes nothing.
pub proof fn law_returning_all_is_returning_each<M: BlockMetadata>(
    pool: InactiveModel<M>,
    blocks: Seq<Block<M>>,
)
    ensures
        pool.return_blocks(Seq::empty()) == pool,
        blocks.len() > 0 ==> {
            &&& pool.return_blocks(blocks) == pool.return_block(blocks.first()).return_blocks(
                blocks.drop_first(),
            )
            &&& pool.return_blocks(blocks) == pool.return_blocks(
                blocks.drop_last(),
            ).return_block(blocks.last())
        },
        pool.return_tick + blocks.len() <= u64::MAX ==> pool.return_blocks(blocks).return_tick
            == pool.return_tick + blocks.len(),
    decreases blocks.len(),
{
    if blocks.len() > 0 {
        let fewer = blocks.drop_last();
        law_returning_all_is_returning_each(pool, fewer);
        let first = pool.return_block(blocks.first());
        if fewer.len() > 0 {
            assert(blocks.drop_first().drop_last() =~= fewer.drop_first());
            assert(blocks.drop_first().last() == blocks.last());
        } else {
            assert(first.return_blocks(blocks.drop_first()) == first);
        }
    }
}

/// A registered block that comes back is found under its hash, the same block and still
/// registered; taking it leaves the pool as it was, but for the tick, and it is not found a
/// second time.
pub proof fn law_match_gives_back_what_was_returned<M: BlockMetadata>(
    pool: InactiveModel<M>,
    block: Block<M>,
    hash: SequenceHash,
)
    requires
        block.registered_as(hash),
        !pool.cached.contains_key(hash),
    ensures
        pool.return_block(block).cached.contains_key(hash),
        pool.return_block(block).cached[hash] == block.returned(pool.next_tick()),
        pool.return_block(block).cached[hash].block_id == block.block_id,
        pool.return_block(block).cached[hash].registered_as(hash),
        pool.return_block(block).take(hash) == (InactiveModel {
            return_tick: pool.next_tick(),
            ..pool
        }),
        pool.return_block(block).take(hash).len() == pool.len(),
        !pool.return_block(block).take(hash).cached.contains_key(hash),
{
    assert(pool.return_block(block).take(hash).cached =~= pool.cached);
}

/// Where a block is cached under a hash, another one of that hash is reset and queued with
/// the empty blocks, and the cached one stays.
pub proof fn law_second_block_is_emptied<M: BlockMetadata>(
    pool: InactiveModel<M>,
    block: Block<M>,
    hash: SequenceHash,
)
    requires
        block.registered_as(hash),
        pool.cached.contains_key(hash),
    ensures
        pool.return_block(block).cached == pool.cached,
        pool.return_block(block).empty == pool.empty.push(
            block.returned(pool.next_tick()).cleared(),
        ),
{
}

/// A block that is not registered is queued behind the empty blocks, reset.
pub proof fn law_unregistered_block_is_emptied<M: BlockMetadata>(
    pool: InactiveModel<M>,
    block: Block<M>,
)
    requires
        block.state !is Registered,
    ensures
        pool.return_block(block).cached == pool.cached,
        pool.return_block(block).empty.drop_last() == pool.empty,
        pool.return_block(block).empty.last().block_id == block.block_id,
        pool.return_block(block).empty.last().state is Reset,
{
    assert(pool.return_block(block).empty.drop_last() =~= pool.empty);
}

/// Added blocks are queued behind the empty ones in the order in which they are given, all
/// of them reset; what is cached stays.
pub proof fn law_added_blocks_are_empty<M: BlockMetadata>(
    pool: InactiveModel<M>,
    blocks: Seq<Block<M>>,
)
    requires
        pool.valid(),
        pool.len() + blocks.len() <= usize::MAX,
    ensures
        pool.add_blocks(blocks).valid(),
        pool.add_blocks(blocks).cached == pool.cached,
        pool.add_blocks(blocks).len() == pool.len() + blocks.len(),
        pool.total_blocks + blocks.len() <= u64::MAX ==> pool.add_blocks(blocks).total_blocks
            == pool.total_blocks + blocks.len(),
        forall|i: int|
            0 <= i < blocks.len() ==> #[trigger] pool.add_blocks(blocks).empty[pool.empty.len() + i]
                == blocks[i].cleared(),
{
    let after = pool.add_blocks(blocks);
    assert forall|i: int| 0 <= i < after.empty.len() implies (#[trigger] after.empty[i]).state is Reset by {
        if i < pool.empty.len() {
            assert(after.empty[i] == pool.empty[i]);
        } else {
            assert(after.empty[i] == blocks[i - pool.empty.len()].cleared());
        }
    }
}

/// As long as the pool has a block one is handed out: it is reset, it was in the pool, and
/// all others stay there.
pub proof fn law_acquire_takes_one<M: BlockMetadata>(pool: InactiveModel<M>)
    requires
        pool.valid(),
        pool.len() > 0,
    ensures
        pool.free_block() is Some,
        (pool.free_block()->0).state is Reset,
        pool.acquire().valid(),
        pool.acquire().len() == pool.len() - 1,
        pool.acquire().total_blocks == pool.total_blocks,
        forall|id: usize| #[trigger]
            pool.holds(id) <==> pool.acquire().holds(id) || id == (pool.free_block()->0).block_id,
{
    let after = pool.acquire();
    let block = pool.free_block()->0;
    if pool.empty.len() > 0 {
        assert forall|id: usize| #[trigger] pool.holds(id) <==> after.holds(id) || id
            == block.block_id by {
            if exists|h: SequenceHash| #[trigger]
                pool.cached.contains_key(h) && pool.cached[h].block_id == id {
                let h = choose|h: SequenceHash| #[trigger]
                    pool.cached.contains_key(h) && pool.cached[h].block_id == id;
                assert(after.cached.contains_key(h));
            } else if pool.holds(id) {
                let i = choose|i: int|
                    0 <= i < pool.empty.len() && #[trigger] pool.empty[i].block_id == id;
                if i > 0 {
                    assert(after.empty[i - 1].block_id == id);
                }
            } else if after.holds(id) {
                let i = choose|i: int|
                    0 <= i < after.empty.len() && #[trigger] after.empty[i].block_id == id;
                assert(pool.empty[i + 1].block_id == id);
            }
            assert(pool.empty[0].block_id == block.block_id);
        }
    } else {
        pool.law_victim_evicts_first();
        let victim = pool.victim();
        assert forall|id: usize| #[trigger] pool.holds(id) <==> after.holds(id) || id
            == block.block_id by {
            if pool.holds(id) {
                let h = choose|h: SequenceHash| #[trigger]
                    pool.cached.contains_key(h) && pool.cached[h].block_id == id;
                if h != victim {
                    assert(after.cached.contains_key(h));
                }
            }
            if after.holds(id) {
                let h = choose|h: SequenceHash| #[trigger]
                    after.cached.contains_key(h) && after.cached[h].block_id == id;
                assert(pool.cached.contains_key(h));
            }
            assert(pool.cached.contains_key(victim));
        }
    }
}

/// A block that was handed out is no longer in the pool.
pub proof fn law_acquired_block_is_gone<M: BlockMetadata>(pool: InactiveModel<M>)
    requires
        pool.valid(),
        pool.distinct(),
        pool.len() > 0,
    ensures
        pool.acquire().distinct(),
        !pool.acquire().holds((pool.free_block()->0).block_id),
{
    let after = pool.acquire();
    let id = (pool.free_block()->0).block_id;
    if pool.empty.len() > 0 {
        assert(pool.empty[0].block_id == id);
        assert forall|i: int| 0 <= i < after.empty.len() implies #[trigger] after.empty[i]
            == pool.empty[i + 1] by {}
        if after.holds(id) {
            if exists|h: SequenceHash| #[trigger]
                after.cached.contains_key(h) && after.cached[h].block_id == id {
                let h = choose|h: SequenceHash| #[trigger]
                    after.cached.contains_key(h) && after.cached[h].block_id == id;
                assert(pool.cached[h].block_id != pool.empty[0].block_id);
            } else {
                let i = choose|i: int|
                    0 <= i < after.empty.len() && #[trigger] after.empty[i].block_id == id;
                assert(pool.empty[0].block_id != pool.empty[i + 1].block_id);
            }
        }
        assert forall|i: int, j: int|
            #![trigger after.empty[i], after.empty[j]]
            0 <= i < j < after.empty.len() implies after.empty[i].block_id
            != after.empty[j].block_id by {
            assert(pool.empty[i + 1].block_id != pool.empty[j + 1].block_id);
        }
        assert forall|a: SequenceHash, i: int|
            #![trigger after.cached[a], after.empty[i]]
            after.cached.contains_key(a) && 0 <= i < after.empty.len() implies after.cached[a].block_id
            != after.empty[i].block_id by {
            assert(pool.cached[a].block_id != pool.empty[i + 1].block_id);
        }
    } else {
        pool.law_victim_evicts_first();
        let victim = pool.victim();
        if after.holds(id) {
            let h = choose|h: SequenceHash| #[trigger]
                after.cached.contains_key(h) && after.cached[h].block_id == id;
            assert(pool.cached[h].block_id != pool.cached[victim].block_id);
        }
        assert forall|a: SequenceHash, b: SequenceHash|
            #![trigger after.cached[a], after.cached[b]]
            after.cached.contains_key(a) && after.cached.contains_key(b) && a
                != b implies after.cached[a].block_id != after.cached[b].block_id by {
            assert(pool.cached[a].block_id != pool.cached[b].block_id);
        }
    }
}

/// While there are empty blocks nothing is evicted.
pub proof fn law_empty_blocks_go_first<M: BlockMetadata>(pool: InactiveModel<M>)
    requires
        pool.empty.len() > 0,
    ensures
        pool.acquire().cached == pool.cached,
        (pool.free_block()->0).block_id == pool.empty[0].block_id,
{
}

/// Cached blocks are evicted in the order of their keys.
pub proof fn law_evictions_in_order<M: BlockMetadata>(pool: InactiveModel<M>)
    requires
        pool.valid(),
        pool.empty.len() == 0,
        pool.cached.len() > 1,
    ensures
        pool.key(pool.victim()).at_most(pool.acquire().key(pool.acquire().victim())),
{
    pool.law_victim_evicts_first();
    law_acquire_takes_one(pool);
    let after = pool.acquire();
    after.law_victim_evicts_first();
    assert(pool.cached.contains_key(after.victim()));
}

/// Any number of blocks up to what the pool has is handed out, all of them reset.
pub proof fn law_acquire_many_takes_many<M: BlockMetadata>(pool: InactiveModel<M>, count: nat)
    requires
        pool.valid(),
        count <= pool.len(),
    ensures
        pool.free_blocks(count).len() == count,
        forall|i: int|
            0 <= i < count ==> (#[trigger] pool.free_blocks(count)[i]).state is Reset && pool.holds(
                pool.free_blocks(count)[i].block_id,
            ),
        pool.acquire_many(count).valid(),
        pool.acquire_many(count).len() == pool.len() - count,
        pool.acquire_many(count).total_blocks == pool.total_blocks,
        forall|id: usize| #[trigger] pool.acquire_many(count).holds(id) ==> pool.holds(id),
    decreases count,
{
    if count > 0 {
        let fewer = (count - 1) as nat;
        law_acquire_many_takes_many(pool, fewer);
        let before = pool.acquire_many(fewer);
        law_acquire_takes_one(before);
        assert(before.holds((before.free_block()->0).block_id));
        assert forall|i: int| 0 <= i < count implies (#[trigger] pool.free_blocks(
            count,
        )[i]).state is Reset && pool.holds(pool.free_blocks(count)[i].block_id) by {
            if i < fewer {
                assert(pool.free_blocks(count)[i] == pool.free_blocks(fewer)[i]);
            }
        }
        assert forall|id: usize| #[trigger] pool.acquire_many(count).holds(id) implies pool.holds(
            id,
        ) by {
            assert(before.holds(id));
        }
    }
}

/// Handing out blocks takes the empty ones first, in their order, and evicts only as many
/// cached ones as there are empty ones too few.
pub proof fn law_acquire_many_evicts_the_shortfall<M: BlockMetadata>(
    pool: InactiveModel<M>,
    count: nat,
)
    requires
        pool.valid(),
        count <= pool.len(),
    ensures
        count <= pool.empty.len() ==> {
            &&& pool.acquire_many(count).cached == pool.cached
            &&& pool.acquire_many(count).empty == pool.empty.skip(count as int)
        },
        count >= pool.empty.len() ==> {
            &&& pool.acquire_many(count).empty.len() == 0
            &&& pool.acquire_many(count).cached.len() == pool.cached.len() - (count
                - pool.empty.len())
            &&& pool.acquire_many(count).cached.submap_of(pool.cached)
        },
    decreases count,
{
    if count == 0 {
        assert(pool.empty.skip(0) =~= pool.empty);
    } else {
        let fewer = (count - 1) as nat;
        law_acquire_many_evicts_the_shortfall(pool, fewer);
        law_acquire_many_takes_many(pool, fewer);
        let before = pool.acquire_many(fewer);
        if count <= pool.empty.len() {
            assert(before.empty.drop_first() =~= pool.empty.skip(count as int));
        } else {
            before.law_victim_evicts_first();
        }
    }
}

/// The blocks that are handed out one after the other are different blocks.
pub proof fn law_acquired_blocks_are_distinct<M: BlockMetadata>(
    pool: InactiveModel<M>,
    count: nat,
)
    requires
        pool.valid(),
        pool.distinct(),
        count <= pool.len(),
    ensures
        pool.acquire_many(count).distinct(),
        forall|i: int|
            0 <= i < count ==> !pool.acquire_many(count).holds(
                (#[trigger] pool.free_blocks(count)[i]).block_id,
            ),
        forall|i: int, j: int|
            #![trigger pool.free_blocks(count)[i], pool.free_blocks(count)[j]]
            0 <= i < j < count ==> pool.free_blocks(count)[i].block_id != pool.free_blocks(
                count,
            )[j].block_id,
    decreases count,
{
    if count > 0 {
        let fewer = (count - 1) as nat;
        law_acquired_blocks_are_distinct(pool, fewer);
        law_acquire_many_takes_many(pool, fewer);
        let before = pool.acquire_many(fewer);
        let after = pool.acquire_many(count);
        law_acquired_block_is_gone(before);
        law_acquire_takes_one(before);
        let last = (before.free_block()->0).block_id;
        assert(before.holds(last));
        assert(pool.free_blocks(count)[fewer as int].block_id == last);
        assert forall|i: int| 0 <= i < count implies !after.holds(
            (#[trigger] pool.free_blocks(count)[i]).block_id,
        ) by {
            if i < fewer {
                assert(pool.free_blocks(count)[i] == pool.free_blocks(fewer)[i]);
                let id = pool.free_blocks(fewer)[i].block_id;
                if after.holds(id) {
                    assert(before.holds(id));
                }
            }
        }
        assert forall|i: int, j: int|
            #![trigger pool.free_blocks(count)[i], pool.free_blocks(count)[j]]
            0 <= i < j < count implies pool.free_blocks(count)[i].block_id != pool.free_blocks(
            count,
        )[j].block_id by {
            assert(pool.free_blocks(count)[i] == pool.free_blocks(fewer)[i]);
            assert(!before.holds(pool.free_blocks(fewer)[i].block_id));
            if j < fewer {
                assert(pool.free_blocks(count)[j] == pool.free_blocks(fewer)[j]);
            }
        }
    }
}

/// Handing out blocks and taking them back leaves as many blocks as there were.
pub proof fn law_acquired_blocks_come_back<M: BlockMetadata>(pool: InactiveModel<M>, count: nat)
    requires
        pool.valid(),
        count <= pool.len(),
    ensures
        pool.acquire_many(count).return_blocks(pool.free_blocks(count)).valid(),
        pool.acquire_many(count).return_blocks(pool.free_blocks(count)).len() == pool.len(),
        pool.acquire_many(count).return_blocks(pool.free_blocks(count)).total_blocks
            == pool.total_blocks,
{
    law_acquire_many_takes_many(pool, count);
    law_return_all_adds_all(pool.acquire_many(count), pool.free_blocks(count));
}

/// Blocks that are reset are queued in the order in which they come back.
proof fn lemma_reset_blocks_queue<M: BlockMetadata>(pool: InactiveModel<M>, blocks: Seq<Block<M>>)
    requires
        forall|i: int| 0 <= i < blocks.len() ==> (#[trigger] blocks[i]).state is Reset,
    ensures
        pool.return_blocks(blocks).cached == pool.cached,
        pool.return_blocks(blocks).empty.len() == pool.empty.len() + blocks.len(),
        forall|i: int|
            0 <= i < pool.empty.len() ==> #[trigger] pool.return_blocks(blocks).empty[i]
                == pool.empty[i],
        forall|i: int|
            0 <= i < blocks.len() ==> (#[trigger] pool.return_blocks(blocks).empty[pool.empty.len()
                + i]).block_id == blocks[i].block_id,
    decreases blocks.len(),
{
    if blocks.len() > 0 {
        let fewer = blocks.drop_last();
        lemma_reset_blocks_queue(pool, fewer);
        let before = pool.return_blocks(fewer);
        let after = pool.return_blocks(blocks);
        assert(blocks[blocks.len() - 1].state is Reset);
        assert(after == before.return_block(blocks.last()));
        assert forall|i: int| 0 <= i < blocks.len() implies (#[trigger] after.empty[pool.empty.len()
            + i]).block_id == blocks[i].block_id by {
            if i < fewer.len() {
                assert(after.empty[pool.empty.len() + i] == before.empty[pool.empty.len() + i]);
                assert(fewer[i] == blocks[i]);
            }
        }
        assert forall|i: int| 0 <= i < pool.empty.len() implies #[trigger] after.empty[i]
            == pool.empty[i] by {
            assert(after.empty[i] == before.empty[i]);
        }
    }
}

/// Resetting a pool of which all blocks are available leaves nothing cached and every block
/// empty, and keeps the number of blocks.
pub proof fn law_reset_empties_the_pool<M: BlockMetadata>(pool: InactiveModel<M>)
    requires
        pool.valid(),
    ensures
        ({
            let after = pool.acquire_many(pool.len()).return_blocks(pool.free_blocks(pool.len()));
            &&& after.valid()
            &&& after.cached == Map::<SequenceHash, Block<M>>::empty()
            &&& after.empty.len() == pool.len()
            &&& forall|i: int|
                0 <= i < after.empty.len() ==> (#[trigger] after.empty[i]).state is Reset
                    && pool.holds(after.empty[i].block_id)
            &&& after.total_blocks == pool.total_blocks
        }),
{
    let count = pool.len();
    let blocks = pool.free_blocks(count);
    let drained = pool.acquire_many(count);
    let after = drained.return_blocks(blocks);
    law_acquired_blocks_come_back(pool, count);
    law_acquire_many_takes_many(pool, count);
    assert(drained.cached =~= Map::<SequenceHash, Block<M>>::empty()) by {
        assert(drained.cached.dom().len() == 0);
        assert(drained.cached.dom() =~= Set::<SequenceHash>::empty());
    }
    lemma_reset_blocks_queue(drained, blocks);
    assert forall|i: int| 0 <= i < after.empty.len() implies (#[trigger] after.empty[i]).state is Reset
        && pool.holds(after.empty[i].block_id) by {
        assert(after.empty[drained.empty.len() + i].block_id == blocks[i].block_id);
    }
}

/// The blocks that a list of hashes matches are registered under those hashes, in their
/// order, and leave the pool.
pub proof fn law_matched_blocks_carry_the_hashes<M: BlockMetadata>(
    pool: InactiveModel<M>,
    hashes: Seq<SequenceHash>,
    blocks: Seq<Block<M>>,
    after: InactiveModel<M>,
)
    requires
        pool.valid(),
        pool.matches_prefix(hashes, blocks, after),
    ensures
        forall|i: int|
            0 <= i < blocks.len() ==> (#[trigger] blocks[i]).registered_as(hashes[i]),
        after.valid(),
        after.len() + blocks.len() == pool.len(),
{
    let found = hashes.take(blocks.len() as int);
    found.unique_seq_to_set();
    assert(found.to_set().subset_of(pool.cached.dom())) by {
        assert forall|h: SequenceHash| found.to_set().contains(h) implies pool.cached.dom().contains(
            h,
        ) by {
            let i = choose|i: int| 0 <= i < found.len() && found[i] == h;
            assert(hashes[i] == h);
        }
    }
    assert(after.cached.dom() =~= pool.cached.dom().difference(found.to_set()));
    vstd::set_lib::lemma_set_disjoint_lens(after.cached.dom(), found.to_set());
    assert(after.cached.dom() + found.to_set() =~= pool.cached.dom());
}

/// A cached block that is reset on request is no longer cached, and stays in the pool.
pub proof fn law_reset_block_is_not_cached<M: BlockMetadata>(
    pool: InactiveModel<M>,
    hash: SequenceHash,
)
    requires
        pool.valid(),
    ensures
        pool.reset_cached(hash, true).valid(),
        pool.reset_cached(hash, true).len() == pool.len(),
        !pool.reset_cached(hash, true).cached.contains_key(hash),
        forall|other: SequenceHash|
            #![trigger pool.reset_cached(hash, true).cached.contains_key(other)]
            other != hash ==> pool.reset_cached(hash, true).cached.contains_key(other)
                == pool.cached.contains_key(other),
        forall|id: usize| #[trigger] pool.holds(id) ==> pool.reset_cached(hash, true).holds(id),
{
    if pool.cached.contains_key(hash) {
        let taken = pool.take(hash);
        let block = pool.cached[hash].cleared();
        law_return_adds_the_block(taken, block);
        assert forall|id: usize| #[trigger] pool.holds(id) implies pool.reset_cached(
            hash,
            true,
        ).holds(id) by {
            if !taken.holds(id) {
                if exists|h: SequenceHash| #[trigger]
                    pool.cached.contains_key(h) && pool.cached[h].block_id == id {
                    let h = choose|h: SequenceHash| #[trigger]
                        pool.cached.contains_key(h) && pool.cached[h].block_id == id;
                    assert(h == hash || taken.cached.contains_key(h));
                } else {
                    let i = choose|i: int|
                        0 <= i < pool.empty.len() && #[trigger] pool.empty[i].block_id == id;
                    assert(taken.empty[i].block_id == id);
                }
            }
            assert(taken.return_block(block).holds(id));
        }
    }
}

/// A request to reset blocks reports each hash as often as it is given, in one of the three
/// lists. A hash is reported as reset at most once; the blocks that were cached under those
/// hashes are empty afterwards, and every other cached block stays.
pub proof fn law_reset_reports_every_hash<M: BlockMetadata>(
    pool: InactiveModel<M>,
    hashes: Seq<SequenceHash>,
    registered: Seq<bool>,
)
    requires
        pool.valid(),
        registered.len() == hashes.len(),
    ensures
        ({
            let report = ResetModel::report_all(pool, hashes, registered);
            let after = pool.reset_all_cached(hashes, registered);
            &&& report.reset_blocks.to_multiset().add(report.not_found.to_multiset()).add(
                report.not_reset.to_multiset(),
            ) == hashes.to_multiset()
            &&& report.reset_blocks.no_duplicates()
            &&& report.reset_blocks.to_set().subset_of(pool.cached.dom())
            &&& after.cached == pool.cached.remove_keys(report.reset_blocks.to_set())
            &&& after.cached.len() + report.reset_blocks.len() == pool.cached.len()
            &&& after.empty.len() == pool.empty.len() + report.reset_blocks.len()
            &&& pool.empty.is_prefix_of(after.empty)
        }),
        pool.reset_all_cached(hashes, registered).valid(),
        pool.reset_all_cached(hashes, registered).len() == pool.len(),
    decreases hashes.len(),
{
    broadcast use vstd::seq_lib::group_to_multiset_ensures;

    let report = ResetModel::report_all(pool, hashes, registered);
    let after = pool.reset_all_cached(hashes, registered);
    if hashes.len() == 0 {
        assert(after.cached =~= pool.cached.remove_keys(report.reset_blocks.to_set()));
    } else {
        let hash = hashes.last();
        let earlier = hashes.drop_last();
        law_reset_reports_every_hash(pool, earlier, registered.drop_last());
        let before = pool.reset_all_cached(earlier, registered.drop_last());
        let so_far = ResetModel::report_all(pool, earlier, registered.drop_last());
        law_reset_block_is_not_cached(before, hash);
        assert(hashes =~= earlier.push(hash));
        if registered.last() && before.cached.contains_key(hash) {
            let reset = so_far.reset_blocks;
            assert(report.reset_blocks == reset.push(hash));
            assert(!reset.contains(hash));
            assert(report.reset_blocks.to_set() =~= reset.to_set().insert(hash)) by {
                assert forall|h: SequenceHash| reset.to_set().insert(
                    hash,
                ).contains(h) implies reset.push(hash).contains(h) by {
                    if h == hash {
                        assert(reset.push(hash)[reset.len() as int] == hash);
                    } else {
                        let i = choose|i: int| 0 <= i < reset.len() && reset[i] == h;
                        assert(reset.push(hash)[i] == h);
                    }
                }
            }
            assert(after.cached =~= before.cached.remove(hash));
            assert(after.cached =~= pool.cached.remove_keys(report.reset_blocks.to_set()));
        }
    }
}

/// A cached block that is touched stays cached under its hash, with the tick of the touch;
/// nothing else changes.
pub proof fn law_touched_block_stays_cached<M: BlockMetadata>(
    pool: InactiveModel<M>,
    hash: SequenceHash,
)
    requires
        pool.valid(),
        pool.cached.contains_key(hash),
    ensures
        pool.take(hash).return_block(pool.cached[hash]) == (InactiveModel {
            cached: pool.cached.insert(hash, pool.cached[hash].returned(pool.next_tick())),
            return_tick: pool.next_tick(),
            ..pool
        }),
{
    assert(pool.take(hash).return_block(pool.cached[hash]).cached =~= pool.cached.insert(
        hash,
        pool.cached[hash].returned(pool.next_tick()),
    ));
}

/// A block that comes back to the pools is in the inactive one afterwards, together with all
/// that were there before, whether or not others still hold a block of the same content.
pub proof fn law_taking_back_adds_the_block<M: BlockMetadata>(
    before: StateModel<M>,
    block: Block<M>,
    after: StateModel<M>,
)
    requires
        before.inactive.valid(),
        before.inactive.len() < usize::MAX,
        before.takes_back(block, after),
    ensures
        after.inactive.valid(),
        after.inactive.len() == before.inactive.len() + 1,
        forall|id: usize| #[trigger]
            after.inactive.holds(id) <==> before.inactive.holds(id) || id == block.block_id,
        forall|hash: SequenceHash| #[trigger]
            after.active.contains_key(hash) ==> before.active.contains_key(hash)
                && after.active[hash] == before.active[hash],
{
    let left = choose|left: Block<M>|
        {
            &&& #[trigger] gives_up(before.active, block, left, after.active)
            &&& after.inactive == before.inactive.return_block(left)
            &&& after.return_tx == before.return_tx
        };
    law_return_adds_the_block(before.inactive, left);
}

} // verus!
