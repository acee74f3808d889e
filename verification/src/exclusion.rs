//! A block is in use or it is cached: no sequence hash is both alive in the active pool and
//! cached in the inactive one.

use std::sync::Arc;

use vstd::prelude::*;

use crate::active::{admits, adopts, gives_up, looks_up_parent, registers};
use crate::block::{Block, ImmutableBlock, MutableBlock};
use crate::laws::{
    law_reset_block_is_not_cached, law_reset_reports_every_hash, law_touched_block_stays_cached,
};
use crate::matching::{JobStage, MatchModel};
use crate::metadata::BlockMetadata;
use crate::registration::{RegisterModel, RegisterStep};
use crate::requests::BlockRegistrationDuplicationSetting;
use crate::state::StateModel;
use crate::tokens::SequenceHash;
use crate::touching::TouchModel;
use crate::weak::WeakBlock;

verus! {

impl<M: BlockMetadata> StateModel<M> {
    /// No hash is cached while the active pool has a reference under it that can be upgraded.
    pub open spec fn exclusive(self) -> bool {
        forall|hash: SequenceHash|
            #![trigger self.inactive.cached.contains_key(hash)]
            #![trigger self.active.contains_key(hash)]
            self.inactive.cached.contains_key(hash) && self.active.contains_key(hash)
                ==> !self.active[hash].live()
    }

    /// Nothing is cached under `hash`.
    pub open spec fn misses(self, hash: SequenceHash) -> bool {
        !self.inactive.cached.contains_key(hash)
    }

    /// Nothing is cached under `hash`, and the active pool has no reference there.
    pub open spec fn lacks(self, hash: SequenceHash) -> bool {
        self.misses(hash) && !self.active.contains_key(hash)
    }
}

/// The handle `duplicate` is kept with the primary one, or else its block is emptied when it
/// goes back to the inactive pool, as it is not registered.
pub open spec fn can_be_dropped<M>(
    setting: BlockRegistrationDuplicationSetting,
    duplicate: MutableBlock<M>,
) -> bool {
    setting is Disabled ==> (duplicate@ matches Some(block) ==> block.state !is Registered)
}

/// Registering a block adds a reference under its hash alone.
proof fn lemma_registering_adds_one<M>(
    before: Map<SequenceHash, WeakBlock<M>>,
    block: MutableBlock<M>,
    hash: SequenceHash,
    handle: ImmutableBlock<M>,
    after: Map<SequenceHash, WeakBlock<M>>,
)
    requires
        registers(before, block, hash, handle, after),
    ensures
        forall|other: SequenceHash| #[trigger]
            after.contains_key(other) && other != hash ==> before.contains_key(other)
                && after[other] == before[other],
{
    let (parent, between, shared) = choose|
        parent: Option<ImmutableBlock<M>>,
        between: Map<SequenceHash, WeakBlock<M>>,
        shared: Arc<MutableBlock<M>>,
    |
        {
            &&& #[trigger] looks_up_parent(before, block@->0, parent, between)
            &&& adopts(block, parent, *shared)
            &&& #[trigger] admits(between, hash, shared, handle, after)
        };
    assert forall|other: SequenceHash| #[trigger]
        after.contains_key(other) && other != hash implies before.contains_key(other)
        && after[other] == before[other] by {
        assert(between.contains_key(other));
    }
}

/// Taking a cached block keeps every hash either alive or cached.
proof fn lemma_taking_keeps_exclusive<M: BlockMetadata>(before: StateModel<M>, hash: SequenceHash)
    requires
        before.exclusive(),
    ensures
        (StateModel { inactive: before.inactive.take(hash), ..before }).exclusive(),
{
    let after = StateModel { inactive: before.inactive.take(hash), ..before };
    assert forall|other: SequenceHash|
        after.inactive.cached.contains_key(other) && after.active.contains_key(
            other,
        ) implies !after.active[other].live() by {
        assert(before.inactive.cached.contains_key(other));
    }
}

/// Taking back a block keeps every hash either alive or cached: while others hold a block of
/// the same content the one that comes back is emptied, and otherwise the reference to it is
/// dropped before it is cached.
pub proof fn law_taking_back_keeps_exclusive<M: BlockMetadata>(
    before: StateModel<M>,
    block: Block<M>,
    after: StateModel<M>,
)
    requires
        before.exclusive(),
        before.takes_back(block, after),
    ensures
        after.exclusive(),
        forall|hash: SequenceHash| #[trigger]
            before.misses(hash) && !block.registered_as(hash) ==> after.misses(hash),
        forall|hash: SequenceHash| #[trigger]
            after.active.contains_key(hash) ==> before.active.contains_key(hash),
{
    let left = choose|left: Block<M>|
        {
            &&& #[trigger] gives_up(before.active, block, left, after.active)
            &&& after.inactive == before.inactive.return_block(left)
            &&& after.return_tx == before.return_tx
        };
    assert(left == block || left == block.cleared());
}

/// Taking back any number of blocks keeps every hash either alive or cached.
pub proof fn law_taking_back_all_keeps_exclusive<M: BlockMetadata>(
    before: StateModel<M>,
    blocks: Seq<Block<M>>,
    after: StateModel<M>,
)
    requires
        before.exclusive(),
        before.takes_back_all(blocks, after),
    ensures
        after.exclusive(),
    decreases blocks.len(),
{
    if blocks.len() > 0 {
        let between = choose|between: StateModel<M>|
            {
                &&& before.takes_back_all(blocks.drop_last(), between)
                &&& #[trigger] between.takes_back(blocks.last(), after)
            };
        law_taking_back_all_keeps_exclusive(before, blocks.drop_last(), between);
        law_taking_back_keeps_exclusive(between, blocks.last(), after);
    }
}

/// Moving a block to the active pool keeps every hash either alive or cached, where nothing
/// is cached under its own.
pub proof fn law_promotion_keeps_exclusive<M: BlockMetadata>(
    before: StateModel<M>,
    block: Block<M>,
    handle: ImmutableBlock<M>,
    after: StateModel<M>,
)
    requires
        before.exclusive(),
        before.misses(block.hash()->0),
        before.promotes(block, handle, after),
    ensures
        after.exclusive(),
{
    let mutable = choose|mutable: MutableBlock<M>|
        {
            &&& mutable.wraps(block, before.return_tx)
            &&& #[trigger] registers(
                before.active,
                mutable,
                block.hash()->0,
                handle,
                after.active,
            )
        };
    lemma_registering_adds_one(before.active, mutable, block.hash()->0, handle, after.active);
}

/// A match keeps every hash either alive or cached, and awaits only what is not cached.
pub proof fn law_match_keeps_exclusive<M: BlockMetadata>(
    before: StateModel<M>,
    job: MatchModel<M>,
    registered: bool,
    next: MatchModel<M>,
    after: StateModel<M>,
)
    requires
        before.inactive.valid(),
        before.exclusive(),
        before.match_goes_on(job, registered, next, after),
    ensures
        after.exclusive(),
        next.stage is Waiting ==> after.misses(next.current()),
{
    if registered {
        let hash = job.current();
        let (found, looked) = choose|found: Option<ImmutableBlock<M>>, looked: StateModel<M>|
            {
                &&& #[trigger] before.looks_up(hash, found, looked)
                &&& looked.match_settles(job, found, next, after)
            };
        assert(looked.exclusive());
        if found is None && looked.inactive.cached.contains_key(hash) {
            let handle = choose|handle: ImmutableBlock<M>|
                {
                    &&& #[trigger] looked.promotes_cached(hash, handle, after)
                    &&& next == job.advance(handle)
                };
            let taken = StateModel { inactive: looked.inactive.take(hash), ..looked };
            lemma_taking_keeps_exclusive(looked, hash);
            law_promotion_keeps_exclusive(taken, looked.inactive.cached[hash], handle, after);
        }
    }
}

/// A match that waits keeps every hash either alive or cached, whatever block comes back,
/// and goes on to await only what is not cached.
pub proof fn law_waiting_match_keeps_exclusive<M: BlockMetadata>(
    before: StateModel<M>,
    job: MatchModel<M>,
    block: Block<M>,
    next: MatchModel<M>,
    after: StateModel<M>,
)
    requires
        before.exclusive(),
        before.misses(job.current()),
        before.match_receives(job, block, next, after),
    ensures
        after.exclusive(),
        next.stage is Waiting ==> after.misses(next.current()),
{
    if block.registered_as(job.current()) {
        let handle = choose|handle: ImmutableBlock<M>|
            {
                &&& #[trigger] before.promotes(block, handle, after)
                &&& next == job.advance(handle)
            };
        law_promotion_keeps_exclusive(before, block, handle, after);
    } else {
        law_taking_back_keeps_exclusive(before, block, after);
    }
}

/// Touching blocks keeps every hash either alive or cached, and awaits only what is neither
/// active nor cached.
pub proof fn law_touch_keeps_exclusive<M: BlockMetadata>(
    before: StateModel<M>,
    job: TouchModel,
    registered: bool,
    next: TouchModel,
    after: StateModel<M>,
)
    requires
        before.inactive.valid(),
        before.exclusive(),
        before.touch_goes_on(job, registered, next, after),
    ensures
        after.exclusive(),
        next.stage is Waiting ==> after.lacks(next.current()),
{
    let hash = job.current();
    if registered {
        if before.inactive.cached.contains_key(hash) {
            law_touched_block_stays_cached(before.inactive, hash);
        } else {
            let found = choose|found: Option<ImmutableBlock<M>>|
                {
                    &&& #[trigger] before.looks_up(hash, found, after)
                    &&& next == match found {
                        Some(_) => job.advance(),
                        None => job.at(JobStage::Waiting),
                    }
                };
            assert(found is None ==> !after.active.contains_key(hash));
        }
    }
}

/// A touch that waits keeps every hash either alive or cached, whatever block comes back,
/// and goes on to await only what is neither active nor cached.
pub proof fn law_waiting_touch_keeps_exclusive<M: BlockMetadata>(
    before: StateModel<M>,
    job: TouchModel,
    block: Block<M>,
    next: TouchModel,
    after: StateModel<M>,
)
    requires
        before.exclusive(),
        before.lacks(job.current()),
        before.touch_receives(job, block, next, after),
    ensures
        after.exclusive(),
        next.stage is Waiting ==> after.lacks(next.current()),
{
    if !block.registered_as(job.current()) {
        law_taking_back_keeps_exclusive(before, block, after);
    }
}

/// Joining a duplicate keeps every hash either alive or cached, where the duplicate is one
/// that can be dropped.
pub proof fn law_joining_keeps_exclusive<M: BlockMetadata>(
    before: StateModel<M>,
    setting: BlockRegistrationDuplicationSetting,
    handle: ImmutableBlock<M>,
    duplicate: Option<MutableBlock<M>>,
    joined: ImmutableBlock<M>,
    after: StateModel<M>,
)
    requires
        before.exclusive(),
        duplicate matches Some(extra) ==> can_be_dropped(setting, extra),
        before.joins(setting, handle, duplicate, joined, after),
    ensures
        after.exclusive(),
{
}

/// Entering a block in the active pool keeps every hash either alive or cached, where nothing
/// is cached under its own and the duplicate is one that can be dropped.
pub proof fn law_settling_keeps_exclusive<M: BlockMetadata, P>(
    before: StateModel<M>,
    job: RegisterModel<M, P>,
    block: MutableBlock<M>,
    duplicate: Option<MutableBlock<M>>,
    offload: bool,
    step: RegisterStep<M, P>,
    after: StateModel<M>,
)
    requires
        before.exclusive(),
        before.misses(block.hash()->0),
        duplicate matches Some(extra) ==> can_be_dropped(job.setting, extra),
        before.settles(job, block, duplicate, offload, step, after),
    ensures
        after.exclusive(),
{
    if block@ matches Some(content) && content.state is Registered {
        let (handle, entered, joined) = choose|
            handle: ImmutableBlock<M>,
            entered: StateModel<M>,
            joined: ImmutableBlock<M>,
        |
            {
                &&& #[trigger] before.registers(block, handle, entered)
                &&& #[trigger] entered.joins(job.setting, handle, duplicate, joined, after)
                &&& step.completes(job, joined, offload)
            };
        lemma_registering_adds_one(
            before.active,
            block,
            block.hash()->0,
            handle,
            entered.active,
        );
        assert(entered.exclusive());
        law_joining_keeps_exclusive(entered, job.setting, handle, duplicate, joined, after);
    }
}

/// Dealing with the next block of a registration keeps every hash either alive or cached,
/// where the block is one that can be dropped as a duplicate. The registry is asked only of
/// what is not cached.
pub proof fn law_registration_keeps_exclusive<M: BlockMetadata, P>(
    before: StateModel<M>,
    job: RegisterModel<M, P>,
    step: RegisterStep<M, P>,
    after: StateModel<M>,
)
    requires
        before.inactive.valid(),
        before.exclusive(),
        job.queue.len() > 0 ==> can_be_dropped(job.setting, job.queue[0]),
        before.register_goes_on(job, step, after),
    ensures
        after.exclusive(),
        step matches RegisterStep::Register(next, block) ==> {
            &&& after.misses(block.hash()->0)
            &&& can_be_dropped(next@.setting, block)
        },
{
    if job.queue.len() > 0 && job.queue[0].hash() is Some {
        let block = job.queue[0];
        let rest = job.rest();
        let hash = block.hash()->0;
        let (found, looked) = choose|found: Option<ImmutableBlock<M>>, looked: StateModel<M>|
            {
                &&& #[trigger] before.looks_up(hash, found, looked)
                &&& looked.register_settles(rest, block, found, step, after)
            };
        assert(looked.exclusive());
        if found is Some {
            let joined = choose|joined: ImmutableBlock<M>|
                {
                    &&& #[trigger] looked.joins(
                        rest.setting,
                        found->0,
                        Some(block),
                        joined,
                        after,
                    )
                    &&& step.is_next(rest.finish(joined))
                };
            law_joining_keeps_exclusive(
                looked,
                rest.setting,
                found->0,
                Some(block),
                joined,
                after,
            );
        } else if looked.inactive.cached.contains_key(hash) {
            let taken = StateModel { inactive: looked.inactive.take(hash), ..looked };
            lemma_taking_keeps_exclusive(looked, hash);
            let primary = choose|primary: MutableBlock<M>|
                #![trigger taken.settles(rest, primary, Some(block), true, step, after)]
                {
                    &&& primary.wraps(looked.inactive.cached[hash], looked.return_tx)
                    &&& taken.settles(rest, primary, Some(block), true, step, after)
                };
            law_settling_keeps_exclusive(taken, rest, primary, Some(block), true, step, after);
        }
    }
}

/// Handing out free blocks caches nothing, and so keeps every hash either alive or cached.
pub proof fn law_allocation_keeps_exclusive<M: BlockMetadata>(before: StateModel<M>, count: nat)
    requires
        before.exclusive(),
    ensures
        (StateModel { inactive: before.inactive.acquire_many(count), ..before }).exclusive(),
    decreases count,
{
    if count > 0 {
        let fewer = (count - 1) as nat;
        law_allocation_keeps_exclusive(before, fewer);
        let between = StateModel { inactive: before.inactive.acquire_many(fewer), ..before };
        let after = StateModel { inactive: before.inactive.acquire_many(count), ..before };
        assert forall|hash: SequenceHash|
            after.inactive.cached.contains_key(hash) && after.active.contains_key(
                hash,
            ) implies !after.active[hash].live() by {
            assert(between.inactive.cached.contains_key(hash));
        }
    }
}

/// Resetting cached blocks keeps every hash either alive or cached.
pub proof fn law_reset_blocks_keeps_exclusive<M: BlockMetadata>(
    before: StateModel<M>,
    hashes: Seq<SequenceHash>,
    registered: Seq<bool>,
)
    requires
        before.inactive.valid(),
        before.exclusive(),
        registered.len() == hashes.len(),
    ensures
        (StateModel {
            inactive: before.inactive.reset_all_cached(hashes, registered),
            ..before
        }).exclusive(),
    decreases hashes.len(),
{
    if hashes.len() > 0 {
        law_reset_blocks_keeps_exclusive(before, hashes.drop_last(), registered.drop_last());
        law_reset_reports_every_hash(
            before.inactive,
            hashes.drop_last(),
            registered.drop_last(),
        );
        let between = StateModel {
            inactive: before.inactive.reset_all_cached(hashes.drop_last(), registered.drop_last()),
            ..before
        };
        let after = StateModel {
            inactive: before.inactive.reset_all_cached(hashes, registered),
            ..before
        };
        law_reset_block_is_not_cached(between.inactive, hashes.last());
        assert forall|hash: SequenceHash|
            after.inactive.cached.contains_key(hash) && after.active.contains_key(
                hash,
            ) implies !after.active[hash].live() by {
            assert(between.inactive.cached.contains_key(hash));
        }
    }
}

} // verus!
