//! What holds after any number of calls.

use vstd::arithmetic::div_mod::lemma_add_mod_noop_right;
use vstd::prelude::*;

use crate::active::well_keyed;
use crate::block::{Block, BlockState, ImmutableBlock, MutableBlock};
use crate::dispatch::first_stage;
use crate::errors::BlockPoolError;
use crate::inactive::InactiveModel;
use crate::laws::{
    law_acquire_many_takes_many, law_acquire_takes_one, law_acquired_blocks_come_back,
    law_added_blocks_are_empty, law_matched_blocks_carry_the_hashes, law_return_adds_the_block,
    law_return_all_adds_all, law_taking_back_adds_the_block,
};
use crate::matching::{law_taking_back_keeps_keys, JobStage, MatchModel};
use crate::metadata::BlockMetadata;
use crate::registration::{
    law_next_keeps_account, law_offload_keeps_account, law_settling_keeps_account, RegisterJob,
    RegisterModel, RegisterStep, RegistrationFailure,
};
use crate::requests::BlockRegistrationDuplicationSetting;
use crate::state::StateModel;
use crate::steps::{law_entering_step, law_registration_step};
use crate::tokens::SequenceHash;
use crate::touching::TouchModel;

verus! {

/// A call that changes an inactive pool.
#[verifier::reject_recursive_types(M)]
pub enum PoolCall<M> {
    AddBlocks(Seq<Block<M>>),
    AddBlocksWithState(Seq<Block<M>>),
    ReturnBlock(Block<M>),
    ReturnBlocks(Seq<Block<M>>),
    MatchSequenceHash(SequenceHash),
    MatchSequenceHashes(Seq<SequenceHash>),
    AcquireFreeBlock,
    AcquireFreeBlocks(nat),
    Reset,
}

impl<M: BlockMetadata> PoolCall<M> {
    /// The number of blocks that the call adds to those that the pool manages.
    pub open spec fn added(self) -> nat {
        match self {
            PoolCall::AddBlocks(blocks) => blocks.len(),
            PoolCall::AddBlocksWithState(blocks) => blocks.len(),
            _ => 0,
        }
    }

    /// The number of blocks that the call puts into the pool.
    pub open spec fn given(self) -> nat {
        match self {
            PoolCall::ReturnBlock(_) => 1,
            PoolCall::ReturnBlocks(blocks) => blocks.len(),
            _ => self.added(),
        }
    }
}

/// The number of blocks that `calls` add to those that the pool manages.
pub open spec fn blocks_added<M: BlockMetadata>(calls: Seq<PoolCall<M>>) -> nat
    decreases calls.len(),
{
    if calls.len() == 0 {
        0
    } else {
        blocks_added(calls.drop_last()) + calls.last().added()
    }
}

/// The number of blocks that `calls` put into the pool.
pub open spec fn blocks_given<M: BlockMetadata>(calls: Seq<PoolCall<M>>) -> nat
    decreases calls.len(),
{
    if calls.len() == 0 {
        0
    } else {
        blocks_given(calls.drop_last()) + calls.last().given()
    }
}

impl<M: BlockMetadata> InactiveModel<M> {
    /// `call` leaves the pool as `after`.
    pub open spec fn goes_through(self, call: PoolCall<M>, after: InactiveModel<M>) -> bool {
        match call {
            PoolCall::AddBlocks(blocks) => after == self.add_blocks(blocks),
            PoolCall::AddBlocksWithState(blocks) => after == self.count_blocks(
                blocks.len(),
            ).return_blocks(blocks),
            PoolCall::ReturnBlock(block) => after == self.return_block(block),
            PoolCall::ReturnBlocks(blocks) => after == self.return_blocks(blocks),
            PoolCall::MatchSequenceHash(hash) => after == self.take(hash),
            PoolCall::MatchSequenceHashes(hashes) => exists|blocks: Seq<Block<M>>| #[trigger]
                self.matches_prefix(hashes, blocks, after),
            PoolCall::AcquireFreeBlock => after == self.acquire(),
            PoolCall::AcquireFreeBlocks(count) => after == (if count <= self.len() {
                self.acquire_many(count)
            } else {
                self
            }),
            PoolCall::Reset => after == (if self.total_blocks == self.len() {
                self.acquire_many(self.len()).return_blocks(self.free_blocks(self.len()))
            } else {
                self
            }),
        }
    }

    /// `calls`, one after the other, leave the pool as `after`.
    pub open spec fn goes_through_all(
        self,
        calls: Seq<PoolCall<M>>,
        after: InactiveModel<M>,
    ) -> bool
        decreases calls.len(),
    {
        if calls.len() == 0 {
            after == self
        } else {
            exists|between: InactiveModel<M>|
                {
                    &&& self.goes_through_all(calls.drop_last(), between)
                    &&& #[trigger] between.goes_through(calls.last(), after)
                }
        }
    }
}

/// Handing out, matching, returning and resetting blocks keeps the total.
pub proof fn law_total_is_kept<M: BlockMetadata>(
    pool: InactiveModel<M>,
    block: Block<M>,
    blocks: Seq<Block<M>>,
    hash: SequenceHash,
    registered: bool,
    count: nat,
)
    ensures
        pool.return_block(block).total_blocks == pool.total_blocks,
        pool.return_blocks(blocks).total_blocks == pool.total_blocks,
        pool.take(hash).total_blocks == pool.total_blocks,
        pool.reset_cached(hash, registered).total_blocks == pool.total_blocks,
        pool.acquire().total_blocks == pool.total_blocks,
        pool.acquire_many(count).total_blocks == pool.total_blocks,
{
    lemma_returning_keeps_total(pool, blocks);
    lemma_acquiring_keeps_total(pool, count);
}

/// Whatever is done with a pool, its total grows by the number of blocks that were added to
/// it, and by nothing else.
pub proof fn law_total_counts_added_blocks<M: BlockMetadata>(
    pool: InactiveModel<M>,
    calls: Seq<PoolCall<M>>,
    after: InactiveModel<M>,
)
    requires
        pool.goes_through_all(calls, after),
    ensures
        after.total_blocks == (pool.total_blocks + blocks_added(calls)) % 0x1_0000_0000_0000_0000,
        pool.total_blocks + blocks_added(calls) <= u64::MAX ==> after.total_blocks
            == pool.total_blocks + blocks_added(calls),
    decreases calls.len(),
{
    if calls.len() > 0 {
        let between = choose|between: InactiveModel<M>|
            {
                &&& pool.goes_through_all(calls.drop_last(), between)
                &&& #[trigger] between.goes_through(calls.last(), after)
            };
        law_total_counts_added_blocks(pool, calls.drop_last(), between);
        lemma_call_counts(between, calls.last(), after);
        let earlier = pool.total_blocks + blocks_added(calls.drop_last());
        let more = calls.last().added() as int;
        lemma_add_mod_noop_right(more, earlier, 0x1_0000_0000_0000_0000);
        assert(earlier + more == pool.total_blocks + blocks_added(calls));
    }
}

proof fn lemma_call_counts<M: BlockMetadata>(
    pool: InactiveModel<M>,
    call: PoolCall<M>,
    after: InactiveModel<M>,
)
    requires
        pool.goes_through(call, after),
    ensures
        after.total_blocks == (pool.total_blocks + call.added()) % 0x1_0000_0000_0000_0000,
{
    match call {
        PoolCall::AddBlocksWithState(blocks) => {
            lemma_returning_keeps_total(pool.count_blocks(blocks.len()), blocks);
        },
        PoolCall::ReturnBlocks(blocks) => {
            lemma_returning_keeps_total(pool, blocks);
        },
        PoolCall::AcquireFreeBlocks(count) => {
            lemma_acquiring_keeps_total(pool, count);
        },
        PoolCall::Reset => {
            lemma_acquiring_keeps_total(pool, pool.len());
            lemma_returning_keeps_total(
                pool.acquire_many(pool.len()),
                pool.free_blocks(pool.len()),
            );
        },
        _ => {},
    }
}

proof fn lemma_returning_keeps_total<M: BlockMetadata>(
    pool: InactiveModel<M>,
    blocks: Seq<Block<M>>,
)
    ensures
        pool.return_blocks(blocks).total_blocks == pool.total_blocks,
    decreases blocks.len(),
{
    if blocks.len() > 0 {
        lemma_returning_keeps_total(pool, blocks.drop_last());
    }
}

proof fn lemma_acquiring_keeps_total<M: BlockMetadata>(pool: InactiveModel<M>, count: nat)
    ensures
        pool.acquire_many(count).total_blocks == pool.total_blocks,
    decreases count,
{
    if count > 0 {
        lemma_acquiring_keeps_total(pool, (count - 1) as nat);
    }
}

/// Whatever is done with a pool, as long as its blocks fit the machine, cached blocks stay
/// under their hashes and empty ones reset, and a block is handed out exactly while the pool
/// has one.
pub proof fn law_pool_stays_valid<M: BlockMetadata>(
    pool: InactiveModel<M>,
    calls: Seq<PoolCall<M>>,
    after: InactiveModel<M>,
)
    requires
        pool.valid(),
        pool.len() + blocks_given(calls) <= usize::MAX,
        pool.goes_through_all(calls, after),
    ensures
        after.valid(),
        after.len() <= pool.len() + blocks_given(calls),
        after.free_block() is Some <==> after.len() > 0,
    decreases calls.len(),
{
    if calls.len() > 0 {
        let between = choose|between: InactiveModel<M>|
            {
                &&& pool.goes_through_all(calls.drop_last(), between)
                &&& #[trigger] between.goes_through(calls.last(), after)
            };
        law_pool_stays_valid(pool, calls.drop_last(), between);
        match calls.last() {
            PoolCall::AddBlocks(blocks) => {
                law_added_blocks_are_empty(between, blocks);
            },
            PoolCall::AddBlocksWithState(blocks) => {
                law_return_all_adds_all(between.count_blocks(blocks.len()), blocks);
            },
            PoolCall::ReturnBlock(block) => {
                law_return_adds_the_block(between, block);
            },
            PoolCall::ReturnBlocks(blocks) => {
                law_return_all_adds_all(between, blocks);
            },
            PoolCall::MatchSequenceHash(_) => {},
            PoolCall::MatchSequenceHashes(hashes) => {
                let blocks = choose|blocks: Seq<Block<M>>| #[trigger]
                    between.matches_prefix(hashes, blocks, after);
                law_matched_blocks_carry_the_hashes(between, hashes, blocks, after);
            },
            PoolCall::AcquireFreeBlock => {
                if between.len() > 0 {
                    law_acquire_takes_one(between);
                }
            },
            PoolCall::AcquireFreeBlocks(count) => {
                if count <= between.len() {
                    law_acquire_many_takes_many(between, count);
                }
            },
            PoolCall::Reset => {
                law_acquired_blocks_come_back(between, between.len());
            },
        }
    }
}

/// What a job is told.
#[verifier::reject_recursive_types(M)]
pub enum JobEvent<M> {
    /// Whether a block is registered under the current hash.
    Answered(bool),
    /// The block that came back.
    Returned(Block<M>),
}

/// The answers among `events`, in their order.
pub open spec fn answers_given<M>(events: Seq<JobEvent<M>>) -> Seq<bool>
    decreases events.len(),
{
    if events.len() == 0 {
        Seq::empty()
    } else {
        match events.last() {
            JobEvent::Answered(registered) => answers_given(events.drop_last()).push(registered),
            JobEvent::Returned(_) => answers_given(events.drop_last()),
        }
    }
}

impl<M: BlockMetadata> StateModel<M> {
    /// `job` goes on to `next`, and the state to `after`, once it was told of `event`.
    pub open spec fn match_is_told(
        self,
        job: MatchModel<M>,
        event: JobEvent<M>,
        next: MatchModel<M>,
        after: StateModel<M>,
    ) -> bool {
        match event {
            JobEvent::Answered(registered) => {
                &&& job.stage is Query
                &&& self.match_goes_on(job, registered, next, after)
            },
            JobEvent::Returned(block) => {
                &&& job.stage is Waiting
                &&& self.match_receives(job, block, next, after)
            },
        }
    }

    /// `job` goes on to `next`, and the state to `after`, once it was told of `events` one
    /// after the other.
    pub open spec fn match_runs(
        self,
        job: MatchModel<M>,
        events: Seq<JobEvent<M>>,
        next: MatchModel<M>,
        after: StateModel<M>,
    ) -> bool
        decreases events.len(),
    {
        if events.len() == 0 {
            next == job && after == self
        } else {
            exists|middle: MatchModel<M>, between: StateModel<M>|
                {
                    &&& self.match_runs(job, events.drop_last(), middle, between)
                    &&& #[trigger] between.match_is_told(middle, events.last(), next, after)
                }
        }
    }

    /// `job` goes on to `next`, and the state to `after`, once it was told of `event`.
    pub open spec fn touch_is_told(
        self,
        job: TouchModel,
        event: JobEvent<M>,
        next: TouchModel,
        after: StateModel<M>,
    ) -> bool {
        match event {
            JobEvent::Answered(registered) => {
                &&& job.stage is Query
                &&& self.touch_goes_on(job, registered, next, after)
            },
            JobEvent::Returned(block) => {
                &&& job.stage is Waiting
                &&& self.touch_receives(job, block, next, after)
            },
        }
    }

    /// `job` goes on to `next`, and the state to `after`, once it was told of `events` one
    /// after the other.
    pub open spec fn touch_runs(
        self,
        job: TouchModel,
        events: Seq<JobEvent<M>>,
        next: TouchModel,
        after: StateModel<M>,
    ) -> bool
        decreases events.len(),
    {
        if events.len() == 0 {
            next == job && after == self
        } else {
            exists|middle: TouchModel, between: StateModel<M>|
                {
                    &&& self.touch_runs(job, events.drop_last(), middle, between)
                    &&& #[trigger] between.touch_is_told(middle, events.last(), next, after)
                }
        }
    }
}

/// `dealt` of `count` hashes are dealt with after `answers`: each of them was answered with
/// yes, and the job stands at `stage`.
pub open spec fn answers_lead_to(
    answers: Seq<bool>,
    count: nat,
    dealt: nat,
    stage: JobStage,
) -> bool {
    &&& dealt <= count
    &&& dealt <= answers.len()
    &&& forall|i: int| 0 <= i < dealt ==> #[trigger] answers[i]
    &&& match stage {
        JobStage::Query => dealt < count && answers.len() == dealt,
        JobStage::Waiting => dealt < count && answers.len() == dealt + 1
            && answers[dealt as int],
        JobStage::Done => {
            ||| dealt == count && answers.len() == dealt
            ||| dealt < count && answers.len() == dealt + 1 && !answers[dealt as int]
        },
    }
}

/// A match asks of one hash after the other whether a block is registered under it. Once it
/// is done it found a block for each hash up to the first that was answered with no, and for
/// all hashes where none was.
pub proof fn law_match_ends_at_the_first_miss<M: BlockMetadata>(
    before: StateModel<M>,
    job: MatchModel<M>,
    events: Seq<JobEvent<M>>,
    next: MatchModel<M>,
    after: StateModel<M>,
)
    requires
        job.found.len() == 0,
        job.stage == first_stage(job.hashes.len()),
        before.match_runs(job, events, next, after),
    ensures
        next.hashes == job.hashes,
        answers_lead_to(answers_given(events), job.hashes.len(), next.found.len(), next.stage),
    decreases events.len(),
{
    if events.len() > 0 {
        let (middle, between) = choose|middle: MatchModel<M>, between: StateModel<M>|
            {
                &&& before.match_runs(job, events.drop_last(), middle, between)
                &&& #[trigger] between.match_is_told(middle, events.last(), next, after)
            };
        law_match_ends_at_the_first_miss(before, job, events.drop_last(), middle, between);
    }
}

/// A touch asks of one hash after the other whether a block is registered under it. Once it
/// is done it dealt with each hash up to the first that was answered with no, and with all
/// hashes where none was.
pub proof fn law_touch_ends_at_the_first_miss<M: BlockMetadata>(
    before: StateModel<M>,
    job: TouchModel,
    events: Seq<JobEvent<M>>,
    next: TouchModel,
    after: StateModel<M>,
)
    requires
        job.touched == 0,
        job.stage == first_stage(job.hashes.len()),
        before.touch_runs(job, events, next, after),
    ensures
        next.hashes == job.hashes,
        answers_lead_to(answers_given(events), job.hashes.len(), next.touched, next.stage),
    decreases events.len(),
{
    if events.len() > 0 {
        let (middle, between) = choose|middle: TouchModel, between: StateModel<M>|
            {
                &&& before.touch_runs(job, events.drop_last(), middle, between)
                &&& #[trigger] between.touch_is_told(middle, events.last(), next, after)
            };
        law_touch_ends_at_the_first_miss(before, job, events.drop_last(), middle, between);
    }
}

/// What a registration is told.
#[verifier::reject_recursive_types(M)]
#[verifier::reject_recursive_types(P)]
pub enum RegisterEvent<M, P> {
    /// To go on with the next block.
    GoOn,
    /// The answer of the block registry.
    Answered(Result<Option<P>, RegistrationFailure>),
    /// The block that came back.
    Returned(Block<M>),
    /// That the block was queued for offloading.
    Offloaded,
}

/// What the block registry gave to be published among `events`, in their order.
pub open spec fn publications_given<M, P>(events: Seq<RegisterEvent<M, P>>) -> Seq<P>
    decreases events.len(),
{
    if events.len() == 0 {
        Seq::empty()
    } else {
        let earlier = publications_given(events.drop_last());
        match events.last() {
            RegisterEvent::Answered(Ok(Some(handle))) => earlier.push(handle),
            _ => earlier,
        }
    }
}

impl<M: BlockMetadata> StateModel<M> {
    /// The registration at `step` goes on to `next`, and the state to `after`, once it was told
    /// of `event`.
    pub open spec fn registration_is_told<P>(
        self,
        step: RegisterStep<M, P>,
        event: RegisterEvent<M, P>,
        next: RegisterStep<M, P>,
        after: StateModel<M>,
    ) -> bool {
        match (step, event) {
            (RegisterStep::Next(job), RegisterEvent::GoOn) => self.register_goes_on(
                job@,
                next,
                after,
            ),
            (RegisterStep::Register(job, block), RegisterEvent::Answered(answer)) => {
                self.register_hears(job@, block, answer, next, after)
            },
            (
                RegisterStep::AwaitReturned(job, duplicate, hash),
                RegisterEvent::Returned(block),
            ) => self.register_receives(job@, duplicate, hash, block, next, after),
            (RegisterStep::Offload(job, handle, _), RegisterEvent::Offloaded) => {
                &&& next matches RegisterStep::Next(rest) && rest@ == job@.finish(handle)
                &&& after == self
            },
            _ => false,
        }
    }

    /// The registration at `step` goes on to `next`, and the state to `after`, once it was told
    /// of `events` one after the other.
    pub open spec fn registration_runs<P>(
        self,
        step: RegisterStep<M, P>,
        events: Seq<RegisterEvent<M, P>>,
        next: RegisterStep<M, P>,
        after: StateModel<M>,
    ) -> bool
        decreases events.len(),
    {
        if events.len() == 0 {
            next == step && after == self
        } else {
            exists|middle: RegisterStep<M, P>, between: StateModel<M>|
                {
                    &&& self.registration_runs(step, events.drop_last(), middle, between)
                    &&& #[trigger] between.registration_is_told(
                        middle,
                        events.last(),
                        next,
                        after,
                    )
                }
        }
    }
}

/// `job` has the given setting and publications and stands for `count` blocks, `gap` of which
/// are being dealt with, and where duplicates are disabled none of its handles has one.
spec fn in_order<M, P>(
    job: RegisterModel<M, P>,
    setting: BlockRegistrationDuplicationSetting,
    count: nat,
    gap: nat,
    published: Seq<P>,
) -> bool {
    &&& job.setting == setting
    &&& job.published == published
    &&& job.queue.len() + gap + job.done.len() == count
    &&& setting is Disabled ==> forall|i: int|
        0 <= i < job.done.len() ==> (#[trigger] job.done[i]).duplicate is None
}

spec fn step_in_order<M: BlockMetadata, P>(
    step: RegisterStep<M, P>,
    setting: BlockRegistrationDuplicationSetting,
    count: nat,
    published: Seq<P>,
) -> bool {
    match step {
        RegisterStep::Next(job) => in_order(job@, setting, count, 0, published),
        RegisterStep::Register(job, _) => in_order(job@, setting, count, 1, published),
        RegisterStep::AwaitReturned(job, _, _) => in_order(job@, setting, count, 1, published),
        RegisterStep::Offload(job, handle, _) => {
            &&& in_order(job@, setting, count, 1, published)
            &&& setting is Disabled ==> handle.duplicate is None
        },
        RegisterStep::Finished(result, handles) => {
            &&& handles@ == published
            &&& result matches Ok(blocks) ==> {
                &&& blocks@.len() == count
                &&& setting is Disabled ==> forall|i: int|
                    0 <= i < blocks@.len() ==> (#[trigger] blocks@[i]).duplicate is None
            }
        },
    }
}

proof fn lemma_settling_stays_in_order<M: BlockMetadata, P>(
    before: StateModel<M>,
    job: RegisterModel<M, P>,
    block: MutableBlock<M>,
    duplicate: Option<MutableBlock<M>>,
    offload: bool,
    step: RegisterStep<M, P>,
    after: StateModel<M>,
    count: nat,
)
    requires
        in_order(job, job.setting, count, 1, job.published),
        before.settles(job, block, duplicate, offload, step, after),
    ensures
        step_in_order(step, job.setting, count, job.published),
{
    law_entering_step(before, job, block, duplicate, offload, step, after);
}

proof fn lemma_told_stays_in_order<M: BlockMetadata, P>(
    before: StateModel<M>,
    step: RegisterStep<M, P>,
    event: RegisterEvent<M, P>,
    next: RegisterStep<M, P>,
    after: StateModel<M>,
    setting: BlockRegistrationDuplicationSetting,
    count: nat,
    published: Seq<P>,
)
    requires
        step_in_order(step, setting, count, published),
        before.registration_is_told(step, event, next, after),
    ensures
        step_in_order(
            next,
            setting,
            count,
            match event {
                RegisterEvent::Answered(Ok(Some(handle))) => published.push(handle),
                _ => published,
            },
        ),
{
    match step {
        RegisterStep::Next(job) => {
            law_registration_step(before, job@, next, after);
            if job@.queue.len() > 0 && job@.queue[0].hash() is Some {
                let block = job@.queue[0];
                let hash = block.hash()->0;
                let rest = RegisterModel {
                    setting: job@.setting,
                    queue: job@.queue.drop_first(),
                    done: job@.done,
                    published: job@.published,
                };
                assert(in_order(rest, setting, count, 1, published));
                if exists|primary: MutableBlock<M>, taken: StateModel<M>| #[trigger]
                    taken.settles(rest, primary, Some(block), true, next, after) {
                    let (primary, taken) = choose|
                        primary: MutableBlock<M>,
                        taken: StateModel<M>,
                    | #[trigger]
                        taken.settles(rest, primary, Some(block), true, next, after);
                    lemma_settling_stays_in_order(
                        taken,
                        rest,
                        primary,
                        Some(block),
                        true,
                        next,
                        after,
                        count,
                    );
                }
            }
        },
        RegisterStep::Register(job, block) => {
            if let RegisterEvent::Answered(Ok(handle)) = event {
                let enrolled = choose|enrolled: MutableBlock<M>|
                    {
                        &&& enrolled@ == Some((block@->0).enrolled())
                        &&& enrolled.parent() == block.parent()
                        &&& enrolled.channel() == block.channel()
                        &&& #[trigger] before.settles(
                            job@.publish(handle),
                            enrolled,
                            None,
                            true,
                            next,
                            after,
                        )
                    };
                lemma_settling_stays_in_order(
                    before,
                    job@.publish(handle),
                    enrolled,
                    None,
                    true,
                    next,
                    after,
                    count,
                );
            }
        },
        RegisterStep::AwaitReturned(job, duplicate, hash) => {
            if let RegisterEvent::Returned(block) = event {
                if block.registered_as(hash) {
                    let primary = choose|primary: MutableBlock<M>|
                        {
                            &&& primary.wraps(block, before.return_tx)
                            &&& #[trigger] before.settles(
                                job@,
                                primary,
                                Some(duplicate),
                                false,
                                next,
                                after,
                            )
                        };
                    lemma_settling_stays_in_order(
                        before,
                        job@,
                        primary,
                        Some(duplicate),
                        false,
                        next,
                        after,
                        count,
                    );
                }
            }
        },
        RegisterStep::Offload(_, _, _) => {},
        RegisterStep::Finished(_, _) => {},
    }
}

/// Whatever a registration is told, once it ends well it gives as many handles as it was given
/// blocks, and where duplicates were disabled none of them has a duplicate. However it ends,
/// what the registry gave to be published is published, in order.
pub proof fn law_registration_holds_to_its_request<M: BlockMetadata, P>(
    before: StateModel<M>,
    job: RegisterJob<M, P>,
    events: Seq<RegisterEvent<M, P>>,
    result: Result<Vec<ImmutableBlock<M>>, BlockPoolError>,
    handles: Vec<P>,
    after: StateModel<M>,
)
    requires
        job@.done.len() == 0,
        job@.published.len() == 0,
        before.registration_runs(
            RegisterStep::Next(job),
            events,
            RegisterStep::Finished(result, handles),
            after,
        ),
    ensures
        handles@ == publications_given(events),
        result matches Ok(blocks) ==> {
            &&& blocks@.len() == job@.queue.len()
            &&& job@.setting is Disabled ==> forall|i: int|
                0 <= i < blocks@.len() ==> (#[trigger] blocks@[i]).duplicate is None
        },
{
    lemma_run_stays_in_order(before, job, events, RegisterStep::Finished(result, handles), after);
}

/// Wherever a registration stands, its setting is the one that it was started with.
pub proof fn law_setting_holds_for_every_block<M: BlockMetadata, P>(
    before: StateModel<M>,
    job: RegisterJob<M, P>,
    events: Seq<RegisterEvent<M, P>>,
    step: RegisterStep<M, P>,
    after: StateModel<M>,
)
    requires
        job@.done.len() == 0,
        job@.published.len() == 0,
        before.registration_runs(RegisterStep::Next(job), events, step, after),
    ensures
        step matches RegisterStep::Next(next) ==> next.setting == job.setting,
        step matches RegisterStep::Register(next, _) ==> next.setting == job.setting,
        step matches RegisterStep::AwaitReturned(next, _, _) ==> next.setting == job.setting,
        step matches RegisterStep::Offload(next, _, _) ==> next.setting == job.setting,
{
    lemma_run_stays_in_order(before, job, events, step, after);
}

proof fn lemma_run_stays_in_order<M: BlockMetadata, P>(
    before: StateModel<M>,
    job: RegisterJob<M, P>,
    events: Seq<RegisterEvent<M, P>>,
    step: RegisterStep<M, P>,
    after: StateModel<M>,
)
    requires
        job@.done.len() == 0,
        job@.published.len() == 0,
        before.registration_runs(RegisterStep::Next(job), events, step, after),
    ensures
        step_in_order(step, job@.setting, job@.queue.len(), publications_given(events)),
    decreases events.len(),
{
    if events.len() == 0 {
        assert(job@.published =~= Seq::<P>::empty());
    } else {
        let (middle, between) = choose|middle: RegisterStep<M, P>, between: StateModel<M>|
            {
                &&& before.registration_runs(
                    RegisterStep::Next(job),
                    events.drop_last(),
                    middle,
                    between,
                )
                &&& #[trigger] between.registration_is_told(middle, events.last(), step, after)
            };
        lemma_run_stays_in_order(before, job, events.drop_last(), middle, between);
        lemma_told_stays_in_order(
            between,
            middle,
            events.last(),
            step,
            after,
            job@.setting,
            job@.queue.len(),
            publications_given(events.drop_last()),
        );
    }
}

proof fn lemma_settling_keeps_valid<M: BlockMetadata, P>(
    before: StateModel<M>,
    job: RegisterModel<M, P>,
    block: MutableBlock<M>,
    duplicate: Option<MutableBlock<M>>,
    offload: bool,
    step: RegisterStep<M, P>,
    after: StateModel<M>,
)
    requires
        before.inactive.valid(),
        before.inactive.len() < usize::MAX,
        before.settles(job, block, duplicate, offload, step, after),
    ensures
        after.inactive.valid(),
        after.inactive.len() <= before.inactive.len() + 1,
{
    law_entering_step(before, job, block, duplicate, offload, step, after);
    if duplicate is Some && (duplicate->0)@ is Some {
        law_return_adds_the_block(before.inactive, (duplicate->0)@->0);
    }
}

proof fn lemma_told_keeps_account<M: BlockMetadata, P>(
    before: StateModel<M>,
    step: RegisterStep<M, P>,
    event: RegisterEvent<M, P>,
    next: RegisterStep<M, P>,
    after: StateModel<M>,
    hashes: Seq<SequenceHash>,
)
    requires
        before.inactive.valid(),
        before.inactive.len() < usize::MAX,
        well_keyed(before.active),
        step.accounts_for(hashes),
        before.registration_is_told(step, event, next, after),
    ensures
        after.inactive.valid(),
        after.inactive.len() <= before.inactive.len() + 1,
        well_keyed(after.active),
        next.accounts_for(hashes),
{
    match step {
        RegisterStep::Next(job) => {
            law_next_keeps_account(before, job@, next, after, hashes);
            law_registration_step(before, job@, next, after);
            if job@.queue.len() > 0 && job@.queue[0].hash() is Some {
                let block = job@.queue[0];
                let hash = block.hash()->0;
                let rest = RegisterModel {
                    setting: job@.setting,
                    queue: job@.queue.drop_first(),
                    done: job@.done,
                    published: job@.published,
                };
                law_return_adds_the_block(before.inactive, block@->0);
                if exists|primary: MutableBlock<M>, taken: StateModel<M>|
                    {
                        &&& taken.inactive == before.inactive.take(hash)
                        &&& #[trigger] taken.settles(
                            rest,
                            primary,
                            Some(block),
                            true,
                            next,
                            after,
                        )
                    } {
                    let (primary, taken) = choose|
                        primary: MutableBlock<M>,
                        taken: StateModel<M>,
                    |
                        {
                            &&& taken.inactive == before.inactive.take(hash)
                            &&& #[trigger] taken.settles(
                                rest,
                                primary,
                                Some(block),
                                true,
                                next,
                                after,
                            )
                        };
                    lemma_settling_keeps_valid(
                        taken,
                        rest,
                        primary,
                        Some(block),
                        true,
                        next,
                        after,
                    );
                }
            }
        },
        RegisterStep::Register(job, block) => {
            if let RegisterEvent::Answered(Ok(handle)) = event {
                let enrolled = choose|enrolled: MutableBlock<M>|
                    {
                        &&& enrolled@ == Some((block@->0).enrolled())
                        &&& enrolled.parent() == block.parent()
                        &&& enrolled.channel() == block.channel()
                        &&& #[trigger] before.settles(
                            job@.publish(handle),
                            enrolled,
                            None,
                            true,
                            next,
                            after,
                        )
                    };
                lemma_settling_keeps_valid(
                    before,
                    job@.publish(handle),
                    enrolled,
                    None,
                    true,
                    next,
                    after,
                );
                law_settling_keeps_account(
                    before,
                    job@.publish(handle),
                    enrolled,
                    None,
                    true,
                    next,
                    after,
                    hashes,
                );
            }
        },
        RegisterStep::AwaitReturned(job, duplicate, hash) => {
            if let RegisterEvent::Returned(block) = event {
                if block.registered_as(hash) {
                    let primary = choose|primary: MutableBlock<M>|
                        {
                            &&& primary.wraps(block, before.return_tx)
                            &&& #[trigger] before.settles(
                                job@,
                                primary,
                                Some(duplicate),
                                false,
                                next,
                                after,
                            )
                        };
                    lemma_settling_keeps_valid(
                        before,
                        job@,
                        primary,
                        Some(duplicate),
                        false,
                        next,
                        after,
                    );
                    law_settling_keeps_account(
                        before,
                        job@,
                        primary,
                        Some(duplicate),
                        false,
                        next,
                        after,
                        hashes,
                    );
                } else {
                    law_taking_back_adds_the_block(before, block, after);
                    law_taking_back_keeps_keys(before, block, after);
                }
            }
        },
        RegisterStep::Offload(job, handle, _) => {
            law_offload_keeps_account(job@, handle, hashes);
        },
        RegisterStep::Finished(_, _) => {},
    }
}

proof fn lemma_run_keeps_account<M: BlockMetadata, P>(
    before: StateModel<M>,
    job: RegisterJob<M, P>,
    events: Seq<RegisterEvent<M, P>>,
    step: RegisterStep<M, P>,
    after: StateModel<M>,
    hashes: Seq<SequenceHash>,
)
    requires
        before.inactive.valid(),
        before.inactive.len() + events.len() <= usize::MAX,
        well_keyed(before.active),
        job@.accounts_for(hashes, 0),
        before.registration_runs(RegisterStep::Next(job), events, step, after),
    ensures
        after.inactive.valid(),
        after.inactive.len() <= before.inactive.len() + events.len(),
        well_keyed(after.active),
        step.accounts_for(hashes),
    decreases events.len(),
{
    if events.len() > 0 {
        let (middle, between) = choose|middle: RegisterStep<M, P>, between: StateModel<M>|
            {
                &&& before.registration_runs(
                    RegisterStep::Next(job),
                    events.drop_last(),
                    middle,
                    between,
                )
                &&& #[trigger] between.registration_is_told(middle, events.last(), step, after)
            };
        lemma_run_keeps_account(before, job, events.drop_last(), middle, between, hashes);
        lemma_told_keeps_account(between, middle, events.last(), step, after, hashes);
    }
}

/// Whatever a registration is told, once it ends well each handle holds a block that is
/// registered under the hash of the block that was given in its place.
pub proof fn law_registration_shares_each_under_its_hash<M: BlockMetadata, P>(
    before: StateModel<M>,
    job: RegisterJob<M, P>,
    events: Seq<RegisterEvent<M, P>>,
    blocks: Vec<ImmutableBlock<M>>,
    handles: Vec<P>,
    after: StateModel<M>,
    i: int,
)
    requires
        before.inactive.valid(),
        before.inactive.len() + events.len() <= usize::MAX,
        well_keyed(before.active),
        job@.done.len() == 0,
        forall|j: int| 0 <= j < job@.queue.len() ==> (#[trigger] job@.queue[j]).hash() is Some,
        before.registration_runs(
            RegisterStep::Next(job),
            events,
            RegisterStep::Finished(Ok(blocks), handles),
            after,
        ),
        0 <= i < job@.queue.len(),
    ensures
        blocks@.len() == job@.queue.len(),
        blocks@[i].block@ matches Some(shared) && (shared.state matches BlockState::Registered(
            handle,
        ) && Some(handle.sequence_hash) == job@.queue[i].hash()),
{
    let hashes = Seq::new(job@.queue.len(), |j: int| job@.queue[j].hash()->0);
    assert(job@.accounts_for(hashes, 0));
    lemma_run_keeps_account(
        before,
        job,
        events,
        RegisterStep::Finished(Ok(blocks), handles),
        after,
        hashes,
    );
    assert(blocks@[i].block.registered_as(hashes[i]));
}

} // verus!
