use std::collections::VecDeque;
use std::sync::Arc;

use vstd::prelude::*;

use crate::active::{law_lookup_finds_hash, law_register_keeps_hash, registers, well_keyed};
use crate::block::{clone_sender, Block, ImmutableBlock, MutableBlock};
use crate::errors::{BlockError, BlockPoolError};
use crate::exclusion::{
    can_be_dropped, law_registration_keeps_exclusive, law_settling_keeps_exclusive,
    law_taking_back_keeps_exclusive,
};
use crate::metadata::BlockMetadata;
use crate::requests::BlockRegistrationDuplicationSetting;
use crate::state::{State, StateModel};
use crate::tokens::SequenceHash;

verus! {

/// Blocks to be registered, and how far they got. `P` is what a newly registered block is
/// published with.
#[verifier::reject_recursive_types(M)]
pub struct RegisterJob<M, P> {
    pub setting: BlockRegistrationDuplicationSetting,
    pub queue: VecDeque<MutableBlock<M>>,
    pub immutable_blocks: Vec<ImmutableBlock<M>>,
    pub publish_handles: Vec<P>,
}

#[verifier::ext_equal]
#[verifier::reject_recursive_types(M)]
#[verifier::reject_recursive_types(P)]
pub struct RegisterModel<M, P> {
    pub setting: BlockRegistrationDuplicationSetting,
    /// Blocks of which nothing was done yet.
    pub queue: Seq<MutableBlock<M>>,
    /// Handles to the blocks that are done.
    pub done: Seq<ImmutableBlock<M>>,
    /// What is to be published.
    pub published: Seq<P>,
}

impl<M, P> View for RegisterJob<M, P> {
    type V = RegisterModel<M, P>;

    open spec fn view(&self) -> RegisterModel<M, P> {
        RegisterModel {
            setting: self.setting,
            queue: self.queue@,
            done: self.immutable_blocks@,
            published: self.publish_handles@,
        }
    }
}

impl<M, P> RegisterModel<M, P> {
    /// The number of blocks of which the job knows.
    pub open spec fn size(self) -> nat {
        self.queue.len() + self.done.len()
    }

    /// The job without the block that it deals with next.
    pub open spec fn rest(self) -> RegisterModel<M, P> {
        RegisterModel { queue: self.queue.drop_first(), ..self }
    }

    /// The job with one more block done.
    pub open spec fn finish(self, handle: ImmutableBlock<M>) -> RegisterModel<M, P> {
        RegisterModel { done: self.done.push(handle), ..self }
    }

    /// The job with one more publication, if there is one to make.
    pub open spec fn publish(self, handle: Option<P>) -> RegisterModel<M, P> {
        match handle {
            Some(handle) => RegisterModel { published: self.published.push(handle), ..self },
            None => self,
        }
    }
}

/// Why the block registry refused a block.
pub enum RegistrationFailure {
    /// A block with the same content is registered.
    AlreadyRegistered,
    /// Any other reason, in words.
    Failed(String),
}

/// How the registration of blocks goes on.
#[verifier::reject_recursive_types(M)]
pub enum RegisterStep<M, P> {
    /// The next block can be dealt with.
    Next(RegisterJob<M, P>),
    /// The block registry is to be asked to register the block.
    Register(RegisterJob<M, P>, MutableBlock<M>),
    /// A block with the content of this one is registered and on its way back.
    AwaitReturned(RegisterJob<M, P>, MutableBlock<M>, SequenceHash),
    /// The block is to be queued for offloading, at the given priority.
    Offload(RegisterJob<M, P>, ImmutableBlock<M>, u64),
    /// The job ended, and what it collected is to be published.
    Finished(Result<Vec<ImmutableBlock<M>>, BlockPoolError>, Vec<P>),
}

impl<M: BlockMetadata, P> RegisterStep<M, P> {
    pub open spec fn is_next(self, job: RegisterModel<M, P>) -> bool {
        self matches RegisterStep::Next(next) && next@ == job
    }

    pub open spec fn is_register(self, job: RegisterModel<M, P>, block: MutableBlock<M>) -> bool {
        self matches RegisterStep::Register(next, asked) && next@ == job && asked == block
    }

    pub open spec fn is_await(
        self,
        job: RegisterModel<M, P>,
        block: MutableBlock<M>,
        sequence_hash: SequenceHash,
    ) -> bool {
        self matches RegisterStep::AwaitReturned(next, kept, hash) && next@ == job && kept == block
            && hash == sequence_hash
    }

    pub open spec fn is_failure(
        self,
        error: BlockPoolError,
        published: Seq<P>,
    ) -> bool {
        self matches RegisterStep::Finished(result, handles) && result == Err::<
            Vec<ImmutableBlock<M>>,
            BlockPoolError,
        >(error) && handles@ == published
    }

    /// The job goes on with `handle` done, or with offloading it first where that is asked
    /// for and the metadata of the block gives a priority.
    pub open spec fn completes(
        self,
        job: RegisterModel<M, P>,
        handle: ImmutableBlock<M>,
        offload: bool,
    ) -> bool {
        match handle.block.offload() {
            Some(priority) if offload => self matches RegisterStep::Offload(next, queued, at)
                && next@ == job && queued == handle && at == priority,
            _ => self.is_next(job.finish(handle)),
        }
    }
}

impl<M: BlockMetadata> StateModel<M> {
    /// Joining `duplicate` to the primary `handle` gives `joined` and leaves `after`: a
    /// duplicate is kept with the handle where that is allowed, and otherwise its block goes
    /// back to the inactive pool.
    pub open spec fn joins(
        self,
        setting: BlockRegistrationDuplicationSetting,
        handle: ImmutableBlock<M>,
        duplicate: Option<MutableBlock<M>>,
        joined: ImmutableBlock<M>,
        after: StateModel<M>,
    ) -> bool {
        match (duplicate, setting) {
            (Some(extra), BlockRegistrationDuplicationSetting::Allowed) => {
                &&& joined.block == handle.block
                &&& joined.duplicate matches Some(kept) && *kept == extra
                &&& after == self
            },
            (Some(extra), BlockRegistrationDuplicationSetting::Disabled) => {
                &&& joined == handle
                &&& after == (match extra@ {
                    Some(block) => StateModel { inactive: self.inactive.return_block(block), ..self },
                    None => self,
                })
            },
            (None, _) => joined == handle && after == self,
        }
    }

    /// Entering `block` in the active pool gives `handle` and leaves `after`.
    pub open spec fn registers(
        self,
        block: MutableBlock<M>,
        handle: ImmutableBlock<M>,
        after: StateModel<M>,
    ) -> bool {
        &&& registers(self.active, block, block.hash()->0, handle, after.active)
        &&& after == StateModel { active: after.active, ..self }
    }

    /// Entering `block` in the active pool, with `duplicate` as a block of the same content,
    /// leads `job` to `step` and leaves `after`.
    pub open spec fn settles<P>(
        self,
        job: RegisterModel<M, P>,
        block: MutableBlock<M>,
        duplicate: Option<MutableBlock<M>>,
        offload: bool,
        step: RegisterStep<M, P>,
        after: StateModel<M>,
    ) -> bool {
        if block@ matches Some(content) && content.state is Registered {
            exists|
                handle: ImmutableBlock<M>,
                entered: StateModel<M>,
                joined: ImmutableBlock<M>,
            |
                {
                    &&& #[trigger] self.registers(block, handle, entered)
                    &&& #[trigger] entered.joins(job.setting, handle, duplicate, joined, after)
                    &&& step.completes(job, joined, offload)
                }
        } else {
            &&& after == self
            &&& step matches RegisterStep::Finished(result, handles) && {
                &&& result matches Err(BlockPoolError::InvalidMutableBlock(text)) && text@
                    == "block is not registered"@
                &&& handles@ == job.published
            }
        }
    }
}

impl<M: BlockMetadata> StateModel<M> {
    /// Dealing with `block`, of which the active pool holds `found`, leads `job` to `step` and
    /// leaves `after`.
    pub open spec fn register_settles<P>(
        self,
        job: RegisterModel<M, P>,
        block: MutableBlock<M>,
        found: Option<ImmutableBlock<M>>,
        step: RegisterStep<M, P>,
        after: StateModel<M>,
    ) -> bool {
        let hash = block.hash()->0;
        match found {
            Some(handle) => exists|joined: ImmutableBlock<M>|
                {
                    &&& #[trigger] self.joins(job.setting, handle, Some(block), joined, after)
                    &&& step.is_next(job.finish(joined))
                },
            None if self.inactive.cached.contains_key(hash) => self.register_cached(
                job,
                block,
                hash,
                step,
                after,
            ),
            None => step.is_register(job, block) && after == self,
        }
    }

    /// Moving the block cached under `hash` to the active pool, with `block` as its duplicate,
    /// leads `job` to `step` and leaves `after`.
    pub open spec fn register_cached<P>(
        self,
        job: RegisterModel<M, P>,
        block: MutableBlock<M>,
        hash: SequenceHash,
        step: RegisterStep<M, P>,
        after: StateModel<M>,
    ) -> bool {
        let taken = StateModel { inactive: self.inactive.take(hash), ..self };
        exists|primary: MutableBlock<M>|
            #![trigger taken.settles(job, primary, Some(block), true, step, after)]
            {
                &&& primary.wraps(self.inactive.cached[hash], self.return_tx)
                &&& taken.settles(job, primary, Some(block), true, step, after)
            }
    }

    /// Dealing with the next block leads `job` to `step` and leaves `after`.
    pub open spec fn register_goes_on<P>(
        self,
        job: RegisterModel<M, P>,
        step: RegisterStep<M, P>,
        after: StateModel<M>,
    ) -> bool {
        if job.queue.len() == 0 {
            &&& step matches RegisterStep::Finished(result, handles) && {
                &&& result matches Ok(blocks) && blocks@ == job.done
                &&& handles@ == job.published
            }
            &&& after == self
        } else {
            match job.queue[0].hash() {
                None => {
                    &&& step.is_failure(
                        BlockPoolError::BlockError(BlockError::InvalidState),
                        job.published,
                    )
                    &&& after == self
                },
                Some(hash) => exists|
                    found: Option<ImmutableBlock<M>>,
                    looked: StateModel<M>,
                |
                    {
                        &&& #[trigger] self.looks_up(hash, found, looked)
                        &&& looked.register_settles(job.rest(), job.queue[0], found, step, after)
                    },
            }
        }
    }
}

impl<M: BlockMetadata> StateModel<M> {
    /// The answer of the block registry for `block` leads `job` to `step` and leaves `after`: a
    /// block that was registered is entered in the active pool, one of which the content is
    /// registered elsewhere has to wait, and any other refusal ends the job.
    pub open spec fn register_hears<P>(
        self,
        job: RegisterModel<M, P>,
        block: MutableBlock<M>,
        answer: Result<Option<P>, RegistrationFailure>,
        step: RegisterStep<M, P>,
        after: StateModel<M>,
    ) -> bool {
        match answer {
            Ok(handle) => exists|enrolled: MutableBlock<M>|
                {
                    &&& enrolled@ == Some((block@->0).enrolled())
                    &&& enrolled.parent() == block.parent()
                    &&& enrolled.channel() == block.channel()
                    &&& #[trigger] self.settles(
                        job.publish(handle),
                        enrolled,
                        None,
                        true,
                        step,
                        after,
                    )
                },
            Err(RegistrationFailure::AlreadyRegistered) => {
                step.is_await(job, block, block.hash()->0) && after == self
            },
            Err(RegistrationFailure::Failed(text)) => {
                &&& step.is_failure(BlockPoolError::FailedToRegisterBlock(text), job.published)
                &&& after == self
            },
        }
    }

    /// A block that came back while the one registered under `sequence_hash` is awaited leads
    /// `job` to `step` and leaves `after`: the awaited one is entered in the active pool, with
    /// `duplicate` as its duplicate, and any other is taken back.
    pub open spec fn register_receives<P>(
        self,
        job: RegisterModel<M, P>,
        duplicate: MutableBlock<M>,
        sequence_hash: SequenceHash,
        block: Block<M>,
        step: RegisterStep<M, P>,
        after: StateModel<M>,
    ) -> bool {
        if block.registered_as(sequence_hash) {
            exists|primary: MutableBlock<M>|
                {
                    &&& primary.wraps(block, self.return_tx)
                    &&& #[trigger] self.settles(job, primary, Some(duplicate), false, step, after)
                }
        } else {
            step.is_await(job, duplicate, sequence_hash) && self.takes_back(block, after)
        }
    }
}

impl<M: BlockMetadata> State<M> {
    /// Keeps `duplicate` with the primary `handle`, or sends its block back to the inactive
    /// pool.
    fn join_duplicate(
        &mut self,
        setting: BlockRegistrationDuplicationSetting,
        handle: ImmutableBlock<M>,
        duplicate: Option<MutableBlock<M>>,
    ) -> (joined: ImmutableBlock<M>)
        requires
            old(self).wf(),
            old(self).has_room(1, 1),
            handle.duplicate is None,
        ensures
            final(self).wf(),
            old(self)@.joins(setting, handle, duplicate, joined, final(self)@),
    {
        match duplicate {
            Some(extra) => match setting {
                BlockRegistrationDuplicationSetting::Allowed => {
                    match handle.with_duplicate(Arc::new(extra)) {
                        Ok(joined) => joined,
                        Err(_) => {
                            assert(false);
                            vstd::pervasive::unreached()
                        },
                    }
                },
                BlockRegistrationDuplicationSetting::Disabled => {
                    if let Some(blocks) = extra.try_take_block() {
                        proof {
                            assert(blocks@.drop_last() =~= Seq::<Block<M>>::empty());
                            reveal_with_fuel(crate::inactive::InactiveModel::return_blocks, 2);
                        }
                        self.inactive.return_blocks(blocks);
                    }
                    handle
                },
            },
            None => handle,
        }
    }

    /// Enters `block` in the active pool, with `duplicate` as a block of the same content.
    fn settle_registration<P>(
        &mut self,
        job: RegisterJob<M, P>,
        block: MutableBlock<M>,
        duplicate: Option<MutableBlock<M>>,
        offload: bool,
    ) -> (step: RegisterStep<M, P>)
        requires
            old(self).wf(),
            old(self).has_room(1, 1),
        ensures
            final(self).wf(),
            old(self)@.settles(job@, block, duplicate, offload, step, final(self)@),
            forall|hashes: Seq<SequenceHash>| #[trigger]
                job@.accounts_for(hashes, 1) && block.hash() == Some(
                    hashes[job@.done.len() as int],
                ) ==> step.accounts_for(hashes),
    {
        let ghost state = self@;
        let step = self.enter_block(job, block, duplicate, offload);
        proof {
            assert forall|hashes: Seq<SequenceHash>| #[trigger]
                job@.accounts_for(hashes, 1) && block.hash() == Some(
                    hashes[job@.done.len() as int],
                ) implies step.accounts_for(hashes) by {
                law_settling_keeps_account(
                    state,
                    job@,
                    block,
                    duplicate,
                    offload,
                    step,
                    self@,
                    hashes,
                );
            }
        }
        step
    }

    /// Enters `block` in the active pool and joins `duplicate` to its handle.
    fn enter_block<P>(
        &mut self,
        job: RegisterJob<M, P>,
        block: MutableBlock<M>,
        duplicate: Option<MutableBlock<M>>,
        offload: bool,
    ) -> (step: RegisterStep<M, P>)
        requires
            old(self).wf(),
            old(self).has_room(1, 1),
        ensures
            final(self).wf(),
            old(self)@.settles(job@, block, duplicate, offload, step, final(self)@),
    {
        let ghost given = block;
        let handle = match self.active.register(block) {
            Ok(handle) => handle,
            Err(error) => {
                return RegisterStep::Finished(Err(error), job.publish_handles);
            },
        };
        let ghost entered = self@;
        let ghost primary = handle;
        let joined = self.join_duplicate(job.setting, handle, duplicate);
        assert(old(self)@.registers(given, primary, entered));
        assert(entered.joins(job.setting, primary, duplicate, joined, self@));
        if offload {
            if let Some(priority) = joined.block.offload_priority() {
                return RegisterStep::Offload(job, joined, priority);
            }
        }
        let mut job = job;
        job.immutable_blocks.push(joined);
        RegisterStep::Next(job)
    }

    /// Starts to register `blocks`.
    pub fn register_blocks<P>(
        &self,
        blocks: Vec<MutableBlock<M>>,
        setting: BlockRegistrationDuplicationSetting,
    ) -> (job: RegisterJob<M, P>)
        requires
            blocks@.len() > 0,
        ensures
            job@ == (RegisterModel {
                setting,
                queue: blocks@,
                done: Seq::empty(),
                published: Seq::<P>::empty(),
            }),
    {
        let ghost all = blocks@;
        let mut queue: VecDeque<MutableBlock<M>> = VecDeque::new();
        for block in iter: blocks
            invariant
                iter.seq() == all,
                queue@ == all.take(iter.index()),
        {
            queue.push_back(block);
            assert(queue@ =~= all.take(iter.index() + 1));
        }
        assert(all.take(all.len() as int) =~= all);
        RegisterJob { setting, queue, immutable_blocks: Vec::new(), publish_handles: Vec::new() }
    }

    /// Goes on with the next block of `job`.
    ///
    /// Where a block of the same content is active or cached, the given one is a duplicate of
    /// it. Otherwise the block registry has to be asked.
    pub fn register_next<P>(&mut self, job: RegisterJob<M, P>) -> (step: RegisterStep<M, P>)
        requires
            old(self).wf(),
            old(self).has_room(1, 1),
        ensures
            final(self).wf(),
            old(self)@.register_goes_on(job@, step, final(self)@),
            forall|hashes: Seq<SequenceHash>| #[trigger]
                job@.accounts_for(hashes, 0) ==> step.accounts_for(hashes),
            old(self)@.exclusive() && (job@.queue.len() > 0 ==> can_be_dropped(
                job@.setting,
                job@.queue[0],
            )) ==> {
                &&& final(self)@.exclusive()
                &&& step matches RegisterStep::Register(_, block) ==> final(self)@.misses(
                    block.hash()->0,
                )
            },
    {
        proof {
            self.inactive.law_pool_is_valid();
        }
        let ghost state = self@;
        let step = self.deal_with_next(job);
        proof {
            assert forall|hashes: Seq<SequenceHash>| #[trigger]
                job@.accounts_for(hashes, 0) implies step.accounts_for(hashes) by {
                law_next_keeps_account(state, job@, step, self@, hashes);
            }
            if state.exclusive() && (job@.queue.len() > 0 ==> can_be_dropped(
                job@.setting,
                job@.queue[0],
            )) {
                law_registration_keeps_exclusive(state, job@, step, self@);
            }
        }
        step
    }

    /// Takes the next block of `job` and finds out where a block of its content is.
    fn deal_with_next<P>(&mut self, job: RegisterJob<M, P>) -> (step: RegisterStep<M, P>)
        requires
            old(self).wf(),
            old(self).has_room(1, 1),
        ensures
            final(self).wf(),
            old(self)@.register_goes_on(job@, step, final(self)@),
    {
        let ghost before = job@;
        let mut job = job;
        let block = match job.queue.pop_front() {
            Some(block) => block,
            None => {
                return RegisterStep::Finished(Ok(job.immutable_blocks), job.publish_handles);
            },
        };
        assert(job@ =~= before.rest());
        let sequence_hash = match block.sequence_hash() {
            Ok(sequence_hash) => sequence_hash,
            Err(error) => {
                return RegisterStep::Finished(
                    Err(BlockPoolError::BlockError(error)),
                    job.publish_handles,
                );
            },
        };
        let found = self.active.match_sequence_hash(sequence_hash);
        let ghost looked = self@;
        let ghost seen = found;
        assert(old(self)@.looks_up(sequence_hash, seen, looked));
        if let Some(handle) = found {
            let ghost given = block;
            let joined = self.join_duplicate(job.setting, handle, Some(block));
            assert(looked.joins(before.setting, seen->0, Some(given), joined, self@));
            job.immutable_blocks.push(joined);
            assert(job@ =~= before.rest().finish(joined));
            return RegisterStep::Next(job);
        }
        match self.inactive.match_sequence_hash(sequence_hash) {
            Some(cached) => {
                let ghost taken = self@;
                let mutable = MutableBlock::new(cached, clone_sender(&self.return_tx));
                let ghost primary = mutable;
                let ghost given = block;
                let step = self.settle_registration(job, mutable, Some(block), true);
                assert(taken.settles(before.rest(), primary, Some(given), true, step, self@));
                step
            },
            None => {
                assert(self@ =~= looked);
                RegisterStep::Register(job, block)
            },
        }
    }

    /// Goes on with `job` once the block registry answered for `block`: it registered the
    /// block, and gave what it is to be published with unless it was published before, or it
    /// refused.
    pub fn register_answered<P>(
        &mut self,
        job: RegisterJob<M, P>,
        block: MutableBlock<M>,
        answer: Result<Option<P>, RegistrationFailure>,
    ) -> (step: RegisterStep<M, P>)
        requires
            old(self).wf(),
            old(self).has_room(1, 1),
            block.hash() is Some,
        ensures
            final(self).wf(),
            old(self)@.register_hears(job@, block, answer, step, final(self)@),
            match answer {
                Ok(handle) => exists|enrolled: MutableBlock<M>|
                    {
                        &&& enrolled@ == Some((block@->0).enrolled())
                        &&& enrolled.parent() == block.parent()
                        &&& enrolled.channel() == block.channel()
                        &&& #[trigger] old(self)@.settles(
                            job@.publish(handle),
                            enrolled,
                            None,
                            true,
                            step,
                            final(self)@,
                        )
                    },
                Err(RegistrationFailure::AlreadyRegistered) => {
                    &&& step.is_await(job@, block, block.hash()->0)
                    &&& final(self)@ == old(self)@
                },
                Err(RegistrationFailure::Failed(text)) => {
                    &&& step.is_failure(
                        BlockPoolError::FailedToRegisterBlock(text),
                        job@.published,
                    )
                    &&& final(self)@ == old(self)@
                },
            },
            forall|hashes: Seq<SequenceHash>| #[trigger]
                job@.accounts_for(hashes, 1) && block.hash() == Some(
                    hashes[job@.done.len() as int],
                ) ==> step.accounts_for(hashes),
            old(self)@.exclusive() && old(self)@.misses(block.hash()->0) ==> {
                &&& final(self)@.exclusive()
                &&& step is AwaitReturned ==> final(self)@.misses(block.hash()->0)
            },
    {
        match answer {
            Ok(handle) => {
                let ghost before = job@;
                let mut job = job;
                let mut block = block;
                let _ = block.mark_registered();
                if let Some(handle) = handle {
                    job.publish_handles.push(handle);
                }
                let ghost enrolled = block;
                assert(job@ =~= before.publish(handle));
                let step = self.settle_registration(job, block, None, true);
                assert(old(self)@.settles(
                    before.publish(handle),
                    enrolled,
                    None,
                    true,
                    step,
                    self@,
                ));
                proof {
                    if old(self)@.exclusive() && old(self)@.misses(enrolled.hash()->0) {
                        law_settling_keeps_exclusive(
                            old(self)@,
                            before.publish(handle),
                            enrolled,
                            None,
                            true,
                            step,
                            self@,
                        );
                    }
                }
                step
            },
            Err(RegistrationFailure::AlreadyRegistered) => {
                match block.sequence_hash() {
                    Ok(sequence_hash) => RegisterStep::AwaitReturned(job, block, sequence_hash),
                    Err(error) => RegisterStep::Finished(
                        Err(BlockPoolError::BlockError(error)),
                        job.publish_handles,
                    ),
                }
            },
            Err(RegistrationFailure::Failed(text)) => RegisterStep::Finished(
                Err(BlockPoolError::FailedToRegisterBlock(text)),
                job.publish_handles,
            ),
        }
    }

    /// Goes on with `job`, which waits for the block registered under `sequence_hash` with
    /// `duplicate` at hand, once a block came back.
    pub fn register_returned<P>(
        &mut self,
        job: RegisterJob<M, P>,
        duplicate: MutableBlock<M>,
        sequence_hash: SequenceHash,
        block: Block<M>,
    ) -> (step: RegisterStep<M, P>)
        requires
            old(self).wf(),
            old(self).has_room(1, 1),
        ensures
            final(self).wf(),
            old(self)@.register_receives(
                job@,
                duplicate,
                sequence_hash,
                block,
                step,
                final(self)@,
            ),
            if block.registered_as(sequence_hash) {
                exists|primary: MutableBlock<M>|
                    {
                        &&& primary.wraps(block, old(self)@.return_tx)
                        &&& #[trigger] old(self)@.settles(
                            job@,
                            primary,
                            Some(duplicate),
                            false,
                            step,
                            final(self)@,
                        )
                    }
            } else {
                &&& step.is_await(job@, duplicate, sequence_hash)
                &&& old(self)@.takes_back(block, final(self)@)
            },
            forall|hashes: Seq<SequenceHash>| #[trigger]
                job@.accounts_for(hashes, 1) && sequence_hash == hashes[job@.done.len() as int]
                    ==> step.accounts_for(hashes),
            old(self)@.exclusive() && old(self)@.misses(sequence_hash) && can_be_dropped(
                job@.setting,
                duplicate,
            ) ==> {
                &&& final(self)@.exclusive()
                &&& step is AwaitReturned ==> final(self)@.misses(sequence_hash)
            },
    {
        match self.offer_returned_block(sequence_hash, block) {
            Some(awaited) => {
                let mutable = MutableBlock::new(awaited, clone_sender(&self.return_tx));
                let ghost primary = mutable;
                let ghost given = duplicate;
                let ghost before = job@;
                let step = self.settle_registration(job, mutable, Some(duplicate), false);
                assert(old(self)@.settles(before, primary, Some(given), false, step, self@));
                proof {
                    if old(self)@.exclusive() && old(self)@.misses(sequence_hash)
                        && can_be_dropped(before.setting, given) {
                        law_settling_keeps_exclusive(
                            old(self)@,
                            before,
                            primary,
                            Some(given),
                            false,
                            step,
                            self@,
                        );
                    }
                }
                step
            },
            None => {
                proof {
                    if old(self)@.exclusive() {
                        law_taking_back_keeps_exclusive(old(self)@, block, self@);
                    }
                }
                RegisterStep::AwaitReturned(job, duplicate, sequence_hash)
            },
        }
    }
}

impl<M, P> RegisterJob<M, P> {
    /// Goes on once `handle` was queued for offloading.
    pub fn offloaded(self, handle: ImmutableBlock<M>) -> (job: RegisterJob<M, P>)
        ensures
            job@ == self@.finish(handle),
    {
        let mut job = self;
        job.immutable_blocks.push(handle);
        job
    }
}

impl<M, P> RegisterModel<M, P> {
    /// The job stands for blocks with the hashes `hashes`: those that are done are registered
    /// under the first of them, and those in the queue carry the last; `gap` hashes between
    /// belong to blocks that are being dealt with.
    pub open spec fn accounts_for(self, hashes: Seq<SequenceHash>, gap: nat) -> bool {
        &&& self.done.len() + gap + self.queue.len() == hashes.len()
        &&& forall|i: int|
            #![trigger self.done[i]]
            0 <= i < self.done.len() ==> self.done[i].block.registered_as(hashes[i])
        &&& forall|i: int|
            #![trigger self.queue[i]]
            0 <= i < self.queue.len() ==> self.queue[i].hash() == Some(
                hashes[self.done.len() + gap + i],
            )
    }
}

impl<M: BlockMetadata, P> RegisterStep<M, P> {
    /// Wherever the job stands, it stands for blocks with the hashes `hashes`; when it ends
    /// well, there is a handle for each of them, registered under its hash.
    pub open spec fn accounts_for(self, hashes: Seq<SequenceHash>) -> bool {
        match self {
            RegisterStep::Next(job) => job@.accounts_for(hashes, 0),
            RegisterStep::Register(job, block) => {
                &&& job@.accounts_for(hashes, 1)
                &&& block.hash() == Some(hashes[job@.done.len() as int])
            },
            RegisterStep::AwaitReturned(job, _, sequence_hash) => {
                &&& job@.accounts_for(hashes, 1)
                &&& sequence_hash == hashes[job@.done.len() as int]
            },
            RegisterStep::Offload(job, handle, _) => {
                &&& job@.accounts_for(hashes, 1)
                &&& handle.block.registered_as(hashes[job@.done.len() as int])
            },
            RegisterStep::Finished(Ok(blocks), _) => {
                &&& blocks@.len() == hashes.len()
                &&& forall|i: int|
                    #![trigger blocks@[i]]
                    0 <= i < blocks@.len() ==> blocks@[i].block.registered_as(hashes[i])
            },
            RegisterStep::Finished(Err(_), _) => true,
        }
    }
}

/// Entering a block in the active pool keeps account of the hashes: its handle is registered
/// under the hash of the block.
pub proof fn law_settling_keeps_account<M: BlockMetadata, P>(
    before: StateModel<M>,
    job: RegisterModel<M, P>,
    block: MutableBlock<M>,
    duplicate: Option<MutableBlock<M>>,
    offload: bool,
    step: RegisterStep<M, P>,
    after: StateModel<M>,
    hashes: Seq<SequenceHash>,
)
    requires
        well_keyed(before.active),
        job.accounts_for(hashes, 1),
        block.hash() == Some(hashes[job.done.len() as int]),
        before.settles(job, block, duplicate, offload, step, after),
    ensures
        well_keyed(after.active),
        step.accounts_for(hashes),
{
    if block@ matches Some(content) && content.state is Registered {
        let (handle, entered, joined) = choose|
            handle: ImmutableBlock<M>,
            entered: StateModel<M>,
            joined: ImmutableBlock<M>,
        |
            {
                &&& #[trigger] before.registers(block, handle, entered)
                &&& #[trigger] entered.joins(job.setting, handle, duplicate, joined, after)
                &&& step.completes(job, joined, offload)
            };
        law_register_keeps_hash(
            before.active,
            block,
            block.hash()->0,
            handle,
            entered.active,
        );
    }
}

/// Dealing with the next block keeps account of the hashes.
pub proof fn law_next_keeps_account<M: BlockMetadata, P>(
    before: StateModel<M>,
    job: RegisterModel<M, P>,
    step: RegisterStep<M, P>,
    after: StateModel<M>,
    hashes: Seq<SequenceHash>,
)
    requires
        well_keyed(before.active),
        before.inactive.valid(),
        job.accounts_for(hashes, 0),
        before.register_goes_on(job, step, after),
    ensures
        well_keyed(after.active),
        step.accounts_for(hashes),
{
    if job.queue.len() > 0 {
        let block = job.queue[0];
        let rest = job.rest();
        let hash = hashes[job.done.len() as int];
        assert(block.hash() == Some(hash));
        assert forall|i: int| 0 <= i < rest.queue.len() implies (#[trigger] rest.queue[i]).hash()
            == Some(hashes[rest.done.len() + 1 + i]) by {
            assert(rest.queue[i] == job.queue[i + 1]);
        }
        assert(rest.accounts_for(hashes, 1));
        let (found, looked) = choose|
            found: Option<ImmutableBlock<M>>,
            looked: StateModel<M>,
        |
            {
                &&& #[trigger] before.looks_up(hash, found, looked)
                &&& looked.register_settles(rest, block, found, step, after)
            };
        law_lookup_finds_hash(before.active, hash, found, looked.active);
        if found is None && looked.inactive.cached.contains_key(hash) {
            let taken = StateModel { inactive: looked.inactive.take(hash), ..looked };
            let primary = choose|primary: MutableBlock<M>|
                #![trigger taken.settles(rest, primary, Some(block), true, step, after)]
                {
                    &&& primary.wraps(looked.inactive.cached[hash], looked.return_tx)
                    &&& taken.settles(rest, primary, Some(block), true, step, after)
                };
            law_settling_keeps_account(
                taken,
                rest,
                primary,
                Some(block),
                true,
                step,
                after,
                hashes,
            );
        }
    }
}

/// Queuing a handle for offloading keeps account of the hashes.
pub proof fn law_offload_keeps_account<M: BlockMetadata, P>(
    job: RegisterModel<M, P>,
    handle: ImmutableBlock<M>,
    hashes: Seq<SequenceHash>,
)
    requires
        job.accounts_for(hashes, 1),
        handle.block.registered_as(hashes[job.done.len() as int]),
    ensures
        job.finish(handle).accounts_for(hashes, 0),
{
}

} // verus!
