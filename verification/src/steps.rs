//! What a single step of a job does, by what it is told and what the pools hold.

use vstd::prelude::*;

use crate::active::registers;
use crate::block::{Block, BlockState, ImmutableBlock, MutableBlock};
use crate::dispatch::first_stage;
use crate::errors::{BlockError, BlockPoolError};
use crate::matching::{JobAction, JobStage, MatchJob, MatchModel};
use crate::metadata::BlockMetadata;
use crate::outcomes::{
    law_lookup_follows_the_reference, law_registering_shares_the_block,
    law_returned_block_is_cached_or_emptied,
};
use crate::registration::{RegisterJob, RegisterModel, RegisterStep};
use crate::requests::{
    BlockRegistrationDuplicationSetting, PriorityRequest, ResetBlocksResponse,
};
use crate::state::{State, StateModel};
use crate::tokens::SequenceHash;
use crate::touching::{TouchJob, TouchModel};

verus! {

/// A job asks of, and waits for, the first hash that it has not dealt with. It starts with a
/// question unless there is no hash.
pub proof fn law_job_deals_with_hashes_in_order<M>(
    matching: MatchModel<M>,
    touching: TouchModel,
    hash: SequenceHash,
    count: nat,
)
    ensures
        matching.current() == matching.hashes[matching.found.len() as int],
        touching.current() == touching.hashes[touching.touched as int],
        JobStage::Query.action(hash) == JobAction::QueryRegistered(hash),
        JobStage::Waiting.action(hash) == JobAction::AwaitReturned(hash),
        JobStage::Done.action(hash) == JobAction::Done,
        first_stage(count) is Query <==> count > 0,
        first_stage(count) is Done <==> count == 0,
{
}

/// A job is what its fields show, in their order.
pub proof fn law_job_is_what_it_shows<M, P>(
    matching: MatchJob<M>,
    touching: TouchJob,
    registering: RegisterJob<M, P>,
    response: ResetBlocksResponse,
)
    ensures
        matching@.hashes == matching.sequence_hashes@,
        matching@.found == matching.immutable_blocks@,
        matching@.stage == matching.stage,
        touching@.hashes == touching.sequence_hashes@,
        touching@.touched == touching.touched,
        touching@.stage == touching.stage,
        registering@.setting == registering.setting,
        registering@.queue == registering.queue@,
        registering@.done == registering.immutable_blocks@,
        registering@.published == registering.publish_handles@,
        response@.reset_blocks == response.reset_blocks@,
        response@.not_found == response.not_found@,
        response@.not_reset == response.not_reset@,
{
}

/// A request is accepted as long as the counts fit the machine. Only a registration of no
/// blocks is refused otherwise.
pub proof fn law_requests_that_fit_are_accepted<M: BlockMetadata>(
    state: &State<M>,
    request: PriorityRequest<M>,
)
    ensures
        state.accepts(request) <==> match request {
            PriorityRequest::AllocateBlocks(count) => count <= state@.inactive.len()
                ==> state@.inactive.return_tick + count <= u64::MAX,
            PriorityRequest::RegisterBlocks(blocks, _) => blocks@.len() > 0,
            PriorityRequest::MatchSequenceHashes(_) => true,
            PriorityRequest::TouchBlocks(_) => true,
            PriorityRequest::Reset => state@.inactive.total_blocks == state@.inactive.len()
                ==> state@.inactive.return_tick + 2 * state@.inactive.len() <= u64::MAX,
            PriorityRequest::ReturnBlock(blocks) => {
                &&& state@.inactive.len() + blocks@.len() <= usize::MAX
                &&& state@.inactive.return_tick + blocks@.len() <= u64::MAX
            },
        },
{
}

/// A block that is moved to the active pool is the very block: its handle holds it with its
/// identifier, its hashes and its metadata, sends it back to the pool, and holds the block that
/// precedes it where that one is found alive. It only gives way to a block of the same hash
/// that is found alive. The inactive pool is not touched.
pub proof fn law_promotion_moves_the_very_block<M: BlockMetadata>(
    before: StateModel<M>,
    block: Block<M>,
    handle: ImmutableBlock<M>,
    after: StateModel<M>,
)
    requires
        before.promotes(block, handle, after),
        block.state is Registered,
    ensures
        ({
            let hash = block.state->Registered_0.sequence_hash;
            &&& after.inactive == before.inactive
            &&& after.return_tx == before.return_tx
            &&& handle.duplicate is None
            &&& after.active.contains_key(hash)
            &&& after.active[hash].target() == handle.block
            &&& {
                ||| {
                    &&& before.active.contains_key(hash)
                    &&& before.active[hash].answers(Some(handle.block))
                    &&& handle.block == before.active[hash].target()
                }
                ||| {
                    &&& before.active.contains_key(hash) ==> before.active[hash].answers(None)
                    &&& handle.block@ == Some(block)
                    &&& handle.block.channel() == before.return_tx
                    &&& match block.state->Registered_0.parent_sequence_hash {
                        Some(parent_hash) => {
                            ||| {
                                &&& before.active.contains_key(parent_hash)
                                &&& before.active[parent_hash].answers(handle.block.parent())
                                &&& handle.block.parent() == Some(
                                    before.active[parent_hash].target(),
                                )
                            }
                            ||| {
                                &&& before.active.contains_key(parent_hash)
                                    ==> before.active[parent_hash].answers(None)
                                &&& handle.block.parent() is None
                            }
                        },
                        None => handle.block.parent() is None,
                    }
                }
            }
            &&& forall|other: SequenceHash| #[trigger]
                after.active.contains_key(other) && other != hash ==> before.active.contains_key(
                    other,
                ) && after.active[other] == before.active[other]
            &&& forall|other: SequenceHash| #[trigger]
                before.active.contains_key(other) && !after.active.contains_key(other)
                    ==> block.state->Registered_0.parent_sequence_hash == Some(other)
                    && before.active[other].answers(None)
        }),
{
    let mutable = choose|mutable: MutableBlock<M>|
        {
            &&& mutable.wraps(block, before.return_tx)
            &&& #[trigger] registers(
                before.active,
                mutable,
                block.hash()->0,
                handle,
                after.active,
            )
        };
    law_registering_shares_the_block(
        before.active,
        mutable,
        block.hash()->0,
        handle,
        after.active,
    );
}

/// A match that is told of its current hash that no block is registered there is done with what
/// it has, and the pools stay. Otherwise it adds a block that is found alive in the active pool,
/// and the pools stay; or else the block that is cached under the hash, which leaves the
/// inactive pool as it is and is shared; or else it waits.
pub proof fn law_match_step<M: BlockMetadata>(
    before: StateModel<M>,
    job: MatchModel<M>,
    registered: bool,
    next: MatchModel<M>,
    after: StateModel<M>,
)
    requires
        before.inactive.valid(),
        job.found.len() < job.hashes.len(),
        before.match_goes_on(job, registered, next, after),
    ensures
        next.hashes == job.hashes,
        after.return_tx == before.return_tx,
        !registered ==> next.found == job.found && next.stage is Done && after == before,
        registered ==> ({
            let hash = job.hashes[job.found.len() as int];
            let handle = next.found.last();
            ||| {
                &&& before.active.contains_key(hash)
                &&& before.active[hash].answers(Some(handle.block))
                &&& handle.block == before.active[hash].target()
                &&& handle.duplicate is None
                &&& next.found == job.found.push(handle)
                &&& next.stage is Query <==> job.found.len() + 1 < job.hashes.len()
                &&& next.stage is Done <==> job.found.len() + 1 == job.hashes.len()
                &&& after == before
            }
            ||| {
                let block = before.inactive.cached[hash];
                &&& before.active.contains_key(hash) ==> before.active[hash].answers(None)
                &&& before.inactive.cached.contains_key(hash)
                &&& next.found == job.found.push(handle)
                &&& next.stage is Query <==> job.found.len() + 1 < job.hashes.len()
                &&& next.stage is Done <==> job.found.len() + 1 == job.hashes.len()
                &&& handle.block@ == Some(block)
                &&& handle.duplicate is None
                &&& handle.block.channel() == before.return_tx
                &&& match block.state->Registered_0.parent_sequence_hash {
                    Some(parent_hash) if parent_hash != hash => {
                        ||| {
                            &&& before.active.contains_key(parent_hash)
                            &&& before.active[parent_hash].answers(handle.block.parent())
                            &&& handle.block.parent() == Some(before.active[parent_hash].target())
                        }
                        ||| {
                            &&& before.active.contains_key(parent_hash)
                                ==> before.active[parent_hash].answers(None)
                            &&& handle.block.parent() is None
                        }
                    },
                    _ => handle.block.parent() is None,
                }
                &&& after.inactive == before.inactive.take(hash)
                &&& after.active.contains_key(hash)
                &&& after.active[hash].target() == handle.block
                &&& forall|other: SequenceHash| #[trigger]
                    after.active.contains_key(other) && other != hash
                        ==> before.active.contains_key(other) && after.active[other]
                        == before.active[other]
                &&& forall|other: SequenceHash| #[trigger]
                    before.active.contains_key(other) && !after.active.contains_key(other)
                        ==> block.state->Registered_0.parent_sequence_hash == Some(other)
                        && before.active[other].answers(None)
            }
            ||| {
                &&& before.active.contains_key(hash) ==> before.active[hash].answers(None)
                &&& !before.inactive.cached.contains_key(hash)
                &&& next.found == job.found
                &&& next.stage is Waiting
                &&& after.inactive == before.inactive
                &&& after.active == before.active.remove(hash)
            }
        }),
{
    if registered {
        let hash = job.current();
        let (found, looked) = choose|found: Option<ImmutableBlock<M>>, looked: StateModel<M>|
            {
                &&& #[trigger] before.looks_up(hash, found, looked)
                &&& looked.match_settles(job, found, next, after)
            };
        law_lookup_follows_the_reference(before.active, hash, found, looked.active);
        if found is None && looked.inactive.cached.contains_key(hash) {
            let handle = choose|handle: ImmutableBlock<M>|
                {
                    &&& #[trigger] looked.promotes_cached(hash, handle, after)
                    &&& next == job.advance(handle)
                };
            let taken = StateModel { inactive: looked.inactive.take(hash), ..looked };
            let block = looked.inactive.cached[hash];
            law_promotion_moves_the_very_block(taken, block, handle, after);
            assert forall|other: SequenceHash| #[trigger]
                before.active.contains_key(other) && !after.active.contains_key(other) implies (
            block.state->Registered_0.parent_sequence_hash == Some(other)
                && before.active[other].answers(None)) by {
                assert(other != hash);
                assert(looked.active.contains_key(other));
            }
            assert forall|other: SequenceHash| #[trigger]
                after.active.contains_key(other) && other
                    != hash implies before.active.contains_key(other) && after.active[other]
                == before.active[other] by {
                assert(looked.active.contains_key(other));
            }
        }
    }
}

/// A match that waits and is told of a block adds it if it is the one that is registered under
/// the current hash, which is then shared as it is, or gives way to one found alive there.
/// Any other block is taken back, and the match goes on waiting.
pub proof fn law_waiting_match_step<M: BlockMetadata>(
    before: StateModel<M>,
    job: MatchModel<M>,
    block: Block<M>,
    next: MatchModel<M>,
    after: StateModel<M>,
)
    requires
        job.found.len() < job.hashes.len(),
        before.match_receives(job, block, next, after),
    ensures
        ({
            let hash = job.hashes[job.found.len() as int];
            if block.state matches BlockState::Registered(handle) && handle.sequence_hash == hash {
                let handle = next.found.last();
                &&& next.hashes == job.hashes
                &&& next.found == job.found.push(handle)
                &&& next.stage is Query <==> job.found.len() + 1 < job.hashes.len()
                &&& next.stage is Done <==> job.found.len() + 1 == job.hashes.len()
                &&& before.promotes(block, handle, after)
                &&& !before.active.contains_key(hash) ==> handle.block@ == Some(block)
                &&& after.inactive == before.inactive
            } else {
                next == job && before.takes_back(block, after)
            }
        }),
{
    if block.registered_as(job.current()) {
        let handle = choose|handle: ImmutableBlock<M>|
            {
                &&& #[trigger] before.promotes(block, handle, after)
                &&& next == job.advance(handle)
            };
        law_promotion_moves_the_very_block(before, block, handle, after);
    }
}

/// A touch that is told of its current hash that no block is registered there is done, and the
/// pools stay. Otherwise a cached block stays cached under the hash as it is, but for the hook
/// of a return at the next tick, and every other block stays as it was; where none is cached, a
/// block that is found alive in the active pool stays as it is; and else the touch waits.
pub proof fn law_touch_step<M: BlockMetadata>(
    before: StateModel<M>,
    job: TouchModel,
    registered: bool,
    next: TouchModel,
    after: StateModel<M>,
)
    requires
        before.inactive.valid(),
        job.touched < job.hashes.len(),
        before.touch_goes_on(job, registered, next, after),
    ensures
        next.hashes == job.hashes,
        after.return_tx == before.return_tx,
        !registered ==> next.touched == job.touched && next.stage is Done && after == before,
        registered ==> ({
            let hash = job.hashes[job.touched as int];
            let tick = (before.inactive.return_tick + 1) as u64;
            if before.inactive.cached.contains_key(hash) {
                let block = before.inactive.cached[hash];
                let touched = after.inactive.cached[hash];
                &&& next.touched == job.touched + 1
                &&& next.stage is Query <==> job.touched + 1 < job.hashes.len()
                &&& next.stage is Done <==> job.touched + 1 == job.hashes.len()
                &&& after.active == before.active
                &&& after.inactive.cached == before.inactive.cached.insert(hash, touched)
                &&& touched.block_id == block.block_id
                &&& touched.state == block.state
                &&& touched.metadata == block.metadata.returned(tick)
                &&& after.inactive.empty == before.inactive.empty
                &&& after.inactive.return_tick == tick
                &&& after.inactive.total_blocks == before.inactive.total_blocks
                &&& after.inactive.total_counter == before.inactive.total_counter
                &&& after.inactive.available_counter == before.inactive.available_counter
            } else {
                ||| {
                    &&& before.active.contains_key(hash)
                    &&& before.active[hash].answers(Some(before.active[hash].target()))
                    &&& next.touched == job.touched + 1
                    &&& next.stage is Query <==> job.touched + 1 < job.hashes.len()
                    &&& next.stage is Done <==> job.touched + 1 == job.hashes.len()
                    &&& after == before
                }
                ||| {
                    &&& before.active.contains_key(hash) ==> before.active[hash].answers(None)
                    &&& next.touched == job.touched
                    &&& next.stage is Waiting
                    &&& after.inactive == before.inactive
                    &&& after.active == before.active.remove(hash)
                }
            }
        }),
{
    let hash = job.current();
    if registered {
        if before.inactive.cached.contains_key(hash) {
            let taken = before.inactive.take(hash);
            law_returned_block_is_cached_or_emptied(taken, before.inactive.cached[hash]);
            assert(after.inactive.cached =~= before.inactive.cached.insert(
                hash,
                after.inactive.cached[hash],
            ));
        } else {
            let found = choose|found: Option<ImmutableBlock<M>>|
                {
                    &&& #[trigger] before.looks_up(hash, found, after)
                    &&& next == match found {
                        Some(_) => job.advance(),
                        None => job.at(JobStage::Waiting),
                    }
                };
            law_lookup_follows_the_reference(before.active, hash, found, after.active);
        }
    }
}

/// A touch that waits and is told of a block has the inactive pool take back the one that is
/// registered under the current hash, and goes on. Any other block is taken back by the pools,
/// and the touch goes on waiting.
pub proof fn law_waiting_touch_step<M: BlockMetadata>(
    before: StateModel<M>,
    job: TouchModel,
    block: Block<M>,
    next: TouchModel,
    after: StateModel<M>,
)
    requires
        job.touched < job.hashes.len(),
        before.touch_receives(job, block, next, after),
    ensures
        ({
            let hash = job.hashes[job.touched as int];
            if block.state matches BlockState::Registered(handle) && handle.sequence_hash == hash {
                &&& next.hashes == job.hashes
                &&& next.touched == job.touched + 1
                &&& next.stage is Query <==> job.touched + 1 < job.hashes.len()
                &&& next.stage is Done <==> job.touched + 1 == job.hashes.len()
                &&& after.active == before.active
                &&& after.return_tx == before.return_tx
                &&& after.inactive == before.inactive.return_block(block)
            } else {
                next == job && before.takes_back(block, after)
            }
        }),
{
}

/// A job that gets a block done has one handle more at the end; one that takes its next block
/// has that block less at the front; one that collects a publication has it at the end. The
/// setting that the job was started with and all else stay.
pub proof fn law_registration_keeps_its_setting<M, P>(
    job: RegisterModel<M, P>,
    handle: ImmutableBlock<M>,
    publication: Option<P>,
)
    ensures
        job.finish(handle).setting == job.setting,
        job.finish(handle).queue == job.queue,
        job.finish(handle).done == job.done.push(handle),
        job.finish(handle).published == job.published,
        job.rest().setting == job.setting,
        job.rest().queue == job.queue.drop_first(),
        job.rest().done == job.done,
        job.rest().published == job.published,
        job.publish(publication).setting == job.setting,
        job.publish(publication).queue == job.queue,
        job.publish(publication).done == job.done,
        job.publish(publication).published == (match publication {
            Some(handle) => job.published.push(handle),
            None => job.published,
        }),
        job.size() == job.queue.len() + job.done.len(),
{
}

/// A step says what it holds.
pub proof fn law_step_says_what_it_holds<M: BlockMetadata, P>(
    step: RegisterStep<M, P>,
    job: RegisterModel<M, P>,
    block: MutableBlock<M>,
    hash: SequenceHash,
    error: BlockPoolError,
)
    ensures
        step.is_next(job) <==> (step matches RegisterStep::Next(next) && next@ == job),
        step.is_register(job, block) <==> (step matches RegisterStep::Register(next, asked)
            && next@ == job && asked == block),
        step.is_await(job, block, hash) <==> (step matches RegisterStep::AwaitReturned(
            next,
            kept,
            awaited,
        ) && next@ == job && kept == block && awaited == hash),
        step.is_failure(error, job.published) <==> (step matches RegisterStep::Finished(
            result,
            handles,
        ) && result == Err::<Vec<ImmutableBlock<M>>, BlockPoolError>(error) && handles@
            == job.published),
{
}

/// A duplicate is kept with the handle where duplicates are allowed, and the pools stay. Where
/// they are disabled the handle stays primary, and the block of the duplicate is taken back by
/// the inactive pool at once. Without a duplicate nothing changes.
pub proof fn law_duplicate_is_kept_or_returned<M: BlockMetadata>(
    before: StateModel<M>,
    setting: BlockRegistrationDuplicationSetting,
    handle: ImmutableBlock<M>,
    duplicate: Option<MutableBlock<M>>,
    joined: ImmutableBlock<M>,
    after: StateModel<M>,
)
    requires
        before.joins(setting, handle, duplicate, joined, after),
    ensures
        joined.block == handle.block,
        after.active == before.active,
        after.return_tx == before.return_tx,
        duplicate is None ==> joined == handle && after == before,
        duplicate is Some && setting is Allowed ==> {
            &&& joined.duplicate matches Some(kept) && *kept == duplicate->0
            &&& after == before
        },
        duplicate is Some && setting is Disabled ==> {
            &&& joined == handle
            &&& (duplicate->0)@ matches Some(block) ==> after.inactive
                == before.inactive.return_block(block) && after.inactive.holds(block.block_id)
            &&& (duplicate->0)@ is None ==> after == before
        },
{
    if duplicate is Some && setting is Disabled && (duplicate->0)@ is Some {
        let block = (duplicate->0)@->0;
        law_returned_block_is_cached_or_emptied(before.inactive, block);
        if block.state is Registered && !before.inactive.cached.contains_key(
            block.state->Registered_0.sequence_hash,
        ) {
            assert(after.inactive.cached.contains_key(block.state->Registered_0.sequence_hash));
        } else {
            assert(after.inactive.empty[after.inactive.empty.len() - 1].block_id
                == block.block_id);
        }
    }
}

/// Entering a registered block in the active pool shares it, joins the duplicate to its handle
/// as the setting says, and gets the handle done; or has it offloaded first, where that is asked
/// for and the metadata of the shared block gives a priority. The job keeps its setting, its
/// queue and its publications. A block that is not registered ends the job, and the pools stay.
pub proof fn law_entering_step<M: BlockMetadata, P>(
    before: StateModel<M>,
    job: RegisterModel<M, P>,
    block: MutableBlock<M>,
    duplicate: Option<MutableBlock<M>>,
    offload: bool,
    step: RegisterStep<M, P>,
    after: StateModel<M>,
)
    requires
        before.settles(job, block, duplicate, offload, step, after),
    ensures
        !(block@ matches Some(content) && content.state is Registered) ==> {
            &&& after == before
            &&& step matches RegisterStep::Finished(
                Err(BlockPoolError::InvalidMutableBlock(text)),
                handles,
            ) && text@ == "block is not registered"@ && handles@ == job.published
        },
        block@ matches Some(content) && content.state is Registered ==> ({
            let joined = match step {
                RegisterStep::Offload(_, handle, _) => handle,
                RegisterStep::Next(next) => next@.done.last(),
                _ => arbitrary(),
            };
            &&& step is Offload || step is Next
            &&& step matches RegisterStep::Offload(next, _, priority) ==> {
                &&& offload
                &&& joined.block@ matches Some(shared) && shared.metadata.offload() == Some(
                    priority,
                )
                &&& next@.setting == job.setting
                &&& next@.queue == job.queue
                &&& next@.done == job.done
                &&& next@.published == job.published
            }
            &&& step matches RegisterStep::Next(next) ==> {
                &&& offload ==> (joined.block@ matches Some(shared) ==> shared.metadata.offload() is None)
                &&& next@.setting == job.setting
                &&& next@.queue == job.queue
                &&& next@.done == job.done.push(joined)
                &&& next@.published == job.published
            }
            &&& registers(
                before.active,
                block,
                block@->0.state->Registered_0.sequence_hash,
                ImmutableBlock { block: joined.block, duplicate: None },
                after.active,
            )
            &&& after.return_tx == before.return_tx
            &&& duplicate is None ==> joined.duplicate is None && after.inactive == before.inactive
            &&& duplicate is Some && job.setting is Allowed ==> {
                &&& joined.duplicate matches Some(kept) && *kept == duplicate->0
                &&& after.inactive == before.inactive
            }
            &&& duplicate is Some && job.setting is Disabled ==> {
                &&& joined.duplicate is None
                &&& (duplicate->0)@ matches Some(given) ==> after.inactive
                    == before.inactive.return_block(given)
                &&& (duplicate->0)@ is None ==> after.inactive == before.inactive
            }
        }),
{
    if block@ matches Some(content) && content.state is Registered {
        let (handle, entered, joined) = choose|
            handle: ImmutableBlock<M>,
            entered: StateModel<M>,
            joined: ImmutableBlock<M>,
        |
            {
                &&& #[trigger] before.registers(block, handle, entered)
                &&& #[trigger] entered.joins(job.setting, handle, duplicate, joined, after)
                &&& step.completes(job, joined, offload)
            };
        law_registering_shares_the_block(
            before.active,
            block,
            block.hash()->0,
            handle,
            entered.active,
        );
        assert(handle == ImmutableBlock { block: joined.block, duplicate: None });
    }
}

/// A registration without blocks left ends with what it has done, in order. A block without a
/// hash ends it with an error. Otherwise the next block is a duplicate of the one found alive in
/// the active pool under its hash; or else of the one cached there, which leaves the inactive
/// pool as it is and is entered in its place, to be offloaded; or else the registry is asked of
/// it. The job goes on with its setting, the rest of its blocks and its publications.
pub proof fn law_registration_step<M: BlockMetadata, P>(
    before: StateModel<M>,
    job: RegisterModel<M, P>,
    step: RegisterStep<M, P>,
    after: StateModel<M>,
)
    requires
        before.register_goes_on(job, step, after),
    ensures
        after.return_tx == before.return_tx,
        job.queue.len() == 0 ==> {
            &&& after == before
            &&& step matches RegisterStep::Finished(Ok(blocks), handles) && blocks@ == job.done
                && handles@ == job.published
        },
        job.queue.len() > 0 && job.queue[0].hash() is None ==> {
            &&& after == before
            &&& step matches RegisterStep::Finished(
                Err(BlockPoolError::BlockError(BlockError::InvalidState)),
                handles,
            ) && handles@ == job.published
        },
        job.queue.len() > 0 && job.queue[0].hash() is Some ==> ({
            let block = job.queue[0];
            let hash = block.hash()->0;
            let rest = RegisterModel {
                setting: job.setting,
                queue: job.queue.drop_first(),
                done: job.done,
                published: job.published,
            };
            ||| {
                &&& before.active.contains_key(hash)
                &&& before.active[hash].answers(Some(before.active[hash].target()))
                &&& step matches RegisterStep::Next(next) && {
                    let joined = next@.done.last();
                    &&& next@.setting == rest.setting
                    &&& next@.queue == rest.queue
                    &&& next@.done == rest.done.push(joined)
                    &&& next@.published == rest.published
                    &&& joined.block == before.active[hash].target()
                    &&& after.active == before.active
                    &&& job.setting is Allowed ==> {
                        &&& joined.duplicate matches Some(kept) && *kept == block
                        &&& after == before
                    }
                    &&& job.setting is Disabled ==> {
                        &&& joined.duplicate is None
                        &&& after.inactive == before.inactive.return_block(block@->0)
                    }
                }
            }
            ||| {
                &&& before.active.contains_key(hash) ==> before.active[hash].answers(None)
                &&& before.inactive.cached.contains_key(hash)
                &&& exists|primary: MutableBlock<M>, taken: StateModel<M>|
                    {
                        &&& primary@ == Some(before.inactive.cached[hash])
                        &&& primary.parent() is None
                        &&& primary.channel() == before.return_tx
                        &&& taken.active == before.active.remove(hash)
                        &&& taken.inactive == before.inactive.take(hash)
                        &&& taken.return_tx == before.return_tx
                        &&& #[trigger] taken.settles(
                            rest,
                            primary,
                            Some(block),
                            true,
                            step,
                            after,
                        )
                    }
            }
            ||| {
                &&& before.active.contains_key(hash) ==> before.active[hash].answers(None)
                &&& !before.inactive.cached.contains_key(hash)
                &&& step matches RegisterStep::Register(next, asked) && next@ == rest && asked
                    == block
                &&& after.active == before.active.remove(hash)
                &&& after.inactive == before.inactive
            }
        }),
{
    if job.queue.len() > 0 && job.queue[0].hash() is Some {
        let block = job.queue[0];
        let rest = job.rest();
        let hash = block.hash()->0;
        let (found, looked) = choose|found: Option<ImmutableBlock<M>>, looked: StateModel<M>|
            {
                &&& #[trigger] before.looks_up(hash, found, looked)
                &&& looked.register_settles(rest, block, found, step, after)
            };
        law_lookup_follows_the_reference(before.active, hash, found, looked.active);
        if found is None && looked.inactive.cached.contains_key(hash) {
            let taken = StateModel { inactive: looked.inactive.take(hash), ..looked };
            let primary = choose|primary: MutableBlock<M>|
                #![trigger taken.settles(rest, primary, Some(block), true, step, after)]
                {
                    &&& primary.wraps(looked.inactive.cached[hash], looked.return_tx)
                    &&& taken.settles(rest, primary, Some(block), true, step, after)
                };
            assert(taken.settles(rest, primary, Some(block), true, step, after));
            law_entering_step(taken, rest, primary, Some(block), true, step, after);
        }
    }
}

} // verus!
