use vstd::prelude::*;

use crate::active::{
    law_give_up_keeps_keys, law_lookup_finds_hash, law_register_keeps_hash, looks_up, registers,
    well_keyed,
};
use crate::block::{clone_sender, Block, ImmutableBlock, MutableBlock};
use crate::exclusion::{
    law_match_keeps_exclusive, law_promotion_keeps_exclusive, law_waiting_match_keeps_exclusive,
};
use crate::metadata::BlockMetadata;
use crate::state::{State, StateModel};
use crate::tokens::SequenceHash;

verus! {

/// What a job needs next.
#[derive(Clone, Copy, Debug, PartialEq, Eq)]
pub enum JobStage {
    /// Whether a block is registered under the current hash.
    Query,
    /// The block under the current hash, which is registered and on its way back.
    Waiting,
    /// Nothing more.
    Done,
}

/// Request to do to the outside world on behalf of a job.
#[derive(Clone, Copy, Debug, PartialEq, Eq)]
pub enum JobAction {
    /// Find out whether a block is registered under the hash.
    QueryRegistered(SequenceHash),
    /// Receive the next block that comes back, while the one under the hash is awaited.
    AwaitReturned(SequenceHash),
    /// Nothing: the job is done.
    Done,
}

impl JobStage {
    /// What to do for a job at this stage whose current hash is `current`.
    pub open spec fn action(self, current: SequenceHash) -> JobAction {
        match self {
            JobStage::Query => JobAction::QueryRegistered(current),
            JobStage::Waiting => JobAction::AwaitReturned(current),
            JobStage::Done => JobAction::Done,
        }
    }
}

/// Blocks to be found by their sequence hashes, up to the first that is not registered.
#[verifier::reject_recursive_types(M)]
pub struct MatchJob<M> {
    pub sequence_hashes: Vec<SequenceHash>,
    pub immutable_blocks: Vec<ImmutableBlock<M>>,
    pub stage: JobStage,
}

#[verifier::ext_equal]
#[verifier::reject_recursive_types(M)]
pub struct MatchModel<M> {
    pub hashes: Seq<SequenceHash>,
    pub found: Seq<ImmutableBlock<M>>,
    pub stage: JobStage,
}

impl<M> View for MatchJob<M> {
    type V = MatchModel<M>;

    open spec fn view(&self) -> MatchModel<M> {
        MatchModel {
            hashes: self.sequence_hashes@,
            found: self.immutable_blocks@,
            stage: self.stage,
        }
    }
}

impl<M> MatchModel<M> {
    /// At most one block is found for each hash, registered under that hash, and a job that is
    /// not done has a hash left.
    pub open spec fn valid(self) -> bool {
        &&& self.found.len() <= self.hashes.len()
        &&& self.stage !is Done ==> self.found.len() < self.hashes.len()
        &&& self.keyed()
    }

    pub open spec fn current(self) -> SequenceHash {
        self.hashes[self.found.len() as int]
    }

    /// The job once a block was found for the current hash.
    pub open spec fn advance(self, handle: ImmutableBlock<M>) -> MatchModel<M> {
        MatchModel {
            found: self.found.push(handle),
            stage: if self.found.len() + 1 < self.hashes.len() {
                JobStage::Query
            } else {
                JobStage::Done
            },
            ..self
        }
    }

    /// The job at another stage.
    pub open spec fn at(self, stage: JobStage) -> MatchModel<M> {
        MatchModel { stage, ..self }
    }

    /// Each block that was found is registered under the hash for which it was found.
    pub open spec fn keyed(self) -> bool {
        forall|i: int|
            #![trigger self.found[i]]
            #![trigger self.hashes[i]]
            0 <= i < self.found.len() ==> self.found[i].block.registered_as(self.hashes[i])
                && self.found[i].duplicate is None
    }
}

impl<M> MatchJob<M> {
    fn advance(&mut self, handle: ImmutableBlock<M>)
        requires
            old(self)@.valid(),
            old(self)@.found.len() < old(self)@.hashes.len(),
            handle.block.registered_as(old(self)@.current()),
            handle.duplicate is None,
        ensures
            final(self)@ == old(self)@.advance(handle),
            final(self)@.valid(),
    {
        self.immutable_blocks.push(handle);
        self.stage =
        if self.immutable_blocks.len() < self.sequence_hashes.len() {
            JobStage::Query
        } else {
            JobStage::Done
        };
    }

    /// What is to be done for the job.
    pub fn action(&self) -> (action: JobAction)
        requires
            self@.valid(),
        ensures
            action == self@.stage.action(self@.current()),
    {
        match self.stage {
            JobStage::Query => JobAction::QueryRegistered(
                self.sequence_hashes[self.immutable_blocks.len()],
            ),
            JobStage::Waiting => JobAction::AwaitReturned(
                self.sequence_hashes[self.immutable_blocks.len()],
            ),
            JobStage::Done => JobAction::Done,
        }
    }
}

impl<M: BlockMetadata> StateModel<M> {
    /// Moving `block` to the active pool gives `handle` and leaves `after`.
    pub open spec fn promotes(
        self,
        block: Block<M>,
        handle: ImmutableBlock<M>,
        after: StateModel<M>,
    ) -> bool {
        &&& after.inactive == self.inactive
        &&& after.return_tx == self.return_tx
        &&& exists|mutable: MutableBlock<M>|
            {
                &&& mutable.wraps(block, self.return_tx)
                &&& #[trigger] registers(
                    self.active,
                    mutable,
                    block.hash()->0,
                    handle,
                    after.active,
                )
            }
    }

    /// Looking up `sequence_hash` in the active pool gives `found` and leaves `after`.
    pub open spec fn looks_up(
        self,
        sequence_hash: SequenceHash,
        found: Option<ImmutableBlock<M>>,
        after: StateModel<M>,
    ) -> bool {
        &&& looks_up(self.active, sequence_hash, found, after.active)
        &&& after == StateModel { active: after.active, ..self }
    }

    /// Moving the block cached under `sequence_hash` to the active pool gives `handle` and
    /// leaves `after`.
    pub open spec fn promotes_cached(
        self,
        sequence_hash: SequenceHash,
        handle: ImmutableBlock<M>,
        after: StateModel<M>,
    ) -> bool {
        StateModel { inactive: self.inactive.take(sequence_hash), ..self }.promotes(
            self.inactive.cached[sequence_hash],
            handle,
            after,
        )
    }

    /// `job` goes on to `next`, and the state to `after`, once `found` is what the active
    /// pool holds under the current hash: a block that is not found there is moved there
    /// from the inactive pool, or else awaited.
    pub open spec fn match_settles(
        self,
        job: MatchModel<M>,
        found: Option<ImmutableBlock<M>>,
        next: MatchModel<M>,
        after: StateModel<M>,
    ) -> bool {
        match found {
            Some(handle) => next == job.advance(handle) && after == self,
            None if self.inactive.cached.contains_key(job.current()) => {
                exists|handle: ImmutableBlock<M>|
                    {
                        &&& #[trigger] self.promotes_cached(job.current(), handle, after)
                        &&& next == job.advance(handle)
                    }
            },
            None => next == job.at(JobStage::Waiting) && after == self,
        }
    }

    /// `job` goes on to `next`, and the state to `after`, once it is known whether a block
    /// is registered under the current hash: if not, the job is done.
    pub open spec fn match_goes_on(
        self,
        job: MatchModel<M>,
        registered: bool,
        next: MatchModel<M>,
        after: StateModel<M>,
    ) -> bool {
        if registered {
            exists|found: Option<ImmutableBlock<M>>, looked: StateModel<M>|
                {
                    &&& #[trigger] self.looks_up(job.current(), found, looked)
                    &&& looked.match_settles(job, found, next, after)
                }
        } else {
            next == job.at(JobStage::Done) && after == self
        }
    }

    /// `job`, which waits, goes on to `next`, and the state to `after`, once `block`
    /// came back: the awaited block is moved to the active pool, any other is taken back.
    pub open spec fn match_receives(
        self,
        job: MatchModel<M>,
        block: Block<M>,
        next: MatchModel<M>,
        after: StateModel<M>,
    ) -> bool {
        if block.registered_as(job.current()) {
            exists|handle: ImmutableBlock<M>|
                {
                    &&& #[trigger] self.promotes(block, handle, after)
                    &&& next == job.advance(handle)
                }
        } else {
            next == job && self.takes_back(block, after)
        }
    }
}

/// Moving a registered block to the active pool gives a primary handle to a block that is
/// registered under the same hash.
pub proof fn law_promotion_keeps_hash<M: BlockMetadata>(
    before: StateModel<M>,
    block: Block<M>,
    handle: ImmutableBlock<M>,
    after: StateModel<M>,
)
    requires
        well_keyed(before.active),
        block.state is Registered,
        before.promotes(block, handle, after),
    ensures
        well_keyed(after.active),
        handle.block.registered_as(block.hash()->0),
        handle.duplicate is None,
{
    let mutable = choose|mutable: MutableBlock<M>|
        {
            &&& mutable.wraps(block, before.return_tx)
            &&& #[trigger] registers(
                before.active,
                mutable,
                block.hash()->0,
                handle,
                after.active,
            )
        };
    law_register_keeps_hash(before.active, mutable, block.hash()->0, handle, after.active);
}

/// Taking back a block keeps the references of the active pool keyed.
pub proof fn law_taking_back_keeps_keys<M: BlockMetadata>(
    before: StateModel<M>,
    block: Block<M>,
    after: StateModel<M>,
)
    requires
        well_keyed(before.active),
        before.takes_back(block, after),
    ensures
        well_keyed(after.active),
{
    let left = choose|left: Block<M>|
        {
            &&& #[trigger] crate::active::gives_up(before.active, block, left, after.active)
            &&& after.inactive == before.inactive.return_block(left)
            &&& after.return_tx == before.return_tx
        };
    law_give_up_keeps_keys(before.active, block, left, after.active);
}

/// Each step of a match keeps what was found registered under the hash for which it was
/// found, in the order of the hashes.
pub proof fn law_match_finds_hashes<M: BlockMetadata>(
    before: StateModel<M>,
    job: MatchModel<M>,
    registered: bool,
    next: MatchModel<M>,
    after: StateModel<M>,
)
    requires
        well_keyed(before.active),
        before.inactive.valid(),
        job.valid(),
        job.stage is Query,
        before.match_goes_on(job, registered, next, after),
    ensures
        well_keyed(after.active),
        next.valid(),
{
    if registered {
        let hash = job.current();
        let (found, looked) = choose|
            found: Option<ImmutableBlock<M>>,
            looked: StateModel<M>,
        |
            {
                &&& #[trigger] before.looks_up(hash, found, looked)
                &&& looked.match_settles(job, found, next, after)
            };
        law_lookup_finds_hash(before.active, hash, found, looked.active);
        if found is None && before.inactive.cached.contains_key(hash) {
            let handle = choose|handle: ImmutableBlock<M>|
                {
                    &&& #[trigger] looked.promotes_cached(hash, handle, after)
                    &&& next == job.advance(handle)
                };
            law_promotion_keeps_hash(
                StateModel { inactive: looked.inactive.take(hash), ..looked },
                looked.inactive.cached[hash],
                handle,
                after,
            );
        }
    }
}

/// What a waiting match receives keeps what was found registered under the hash for which
/// it was found.
pub proof fn law_match_receives_hash<M: BlockMetadata>(
    before: StateModel<M>,
    job: MatchModel<M>,
    block: Block<M>,
    next: MatchModel<M>,
    after: StateModel<M>,
)
    requires
        well_keyed(before.active),
        job.valid(),
        job.stage is Waiting,
        before.match_receives(job, block, next, after),
    ensures
        well_keyed(after.active),
        next.valid(),
{
    if block.registered_as(job.current()) {
        let handle = choose|handle: ImmutableBlock<M>|
            {
                &&& #[trigger] before.promotes(block, handle, after)
                &&& next == job.advance(handle)
            };
        law_promotion_keeps_hash(before, block, handle, after);
    } else {
        law_taking_back_keeps_keys(before, block, after);
    }
}

impl<M: BlockMetadata> State<M> {
    /// Moves a registered block to the active pool.
    pub fn promote(&mut self, block: Block<M>) -> (handle: ImmutableBlock<M>)
        requires
            old(self).wf(),
            block.state is Registered,
        ensures
            final(self).wf(),
            old(self)@.promotes(block, handle, final(self)@),
            handle.block.registered_as(block.hash()->0),
            handle.duplicate is None,
            old(self)@.exclusive() && old(self)@.misses(block.hash()->0)
                ==> final(self)@.exclusive(),
    {
        let mutable = MutableBlock::new(block, clone_sender(&self.return_tx));
        let ghost given = mutable;
        let handle = match self.active.register(mutable) {
            Ok(handle) => handle,
            Err(_) => {
                assert(false);
                vstd::pervasive::unreached()
            },
        };
        assert(registers(old(self)@.active, given, block.hash()->0, handle, self@.active));
        proof {
            if old(self)@.exclusive() && old(self)@.misses(block.hash()->0) {
                law_promotion_keeps_exclusive(old(self)@, block, handle, self@);
            }
        }
        handle
    }

    /// Starts to look for blocks by their sequence hashes.
    pub fn match_sequence_hashes(&self, sequence_hashes: Vec<SequenceHash>) -> (job: MatchJob<M>)
        ensures
            job@.hashes == sequence_hashes@,
            job@.found == Seq::<ImmutableBlock<M>>::empty(),
            job@.stage == (if sequence_hashes@.len() > 0 {
                JobStage::Query
            } else {
                JobStage::Done
            }),
            job@.valid(),
    {
        let stage = if sequence_hashes.len() > 0 {
            JobStage::Query
        } else {
            JobStage::Done
        };
        MatchJob { sequence_hashes, immutable_blocks: Vec::new(), stage }
    }

    /// Goes on with `job` once it is known whether a block is registered under its current
    /// hash.
    pub fn match_registered(&mut self, job: &mut MatchJob<M>, registered: bool)
        requires
            old(self).wf(),
            old(job)@.valid(),
            old(job)@.stage is Query,
        ensures
            final(self).wf(),
            final(job)@.valid(),
            old(self)@.match_goes_on(old(job)@, registered, final(job)@, final(self)@),
            old(self)@.exclusive() ==> {
                &&& final(self)@.exclusive()
                &&& final(job)@.stage is Waiting ==> final(self)@.misses(final(job)@.current())
            },
    {
        proof {
            self.inactive.law_pool_is_valid();
        }
        let sequence_hash = job.sequence_hashes[job.immutable_blocks.len()];
        if !registered {
            job.stage = JobStage::Done;
            assert(job@ =~= old(job)@.at(JobStage::Done));
            assert(old(self)@.match_goes_on(old(job)@, registered, job@, self@));
        } else {
            let found = self.active.match_sequence_hash(sequence_hash);
            let ghost looked = self@;
            let ghost seen = found;
            match found {
                Some(handle) => {
                    job.advance(handle);
                },
                None => {
                    match self.inactive.match_sequence_hash(sequence_hash) {
                        Some(block) => {
                            let handle = self.promote(block);
                            job.advance(handle);
                            assert(looked.promotes_cached(sequence_hash, handle, self@));
                        },
                        None => {
                            job.stage = JobStage::Waiting;
                            assert(self@ =~= looked);
                        },
                    }
                },
            }
            assert(old(self)@.looks_up(old(job)@.current(), seen, looked));
            assert(looked.match_settles(old(job)@, seen, job@, self@));
            assert(old(self)@.match_goes_on(old(job)@, registered, job@, self@));
        }
        proof {
            if old(self)@.exclusive() {
                law_match_keeps_exclusive(old(self)@, old(job)@, registered, job@, self@);
            }
        }
    }

    /// Goes on with `job`, which waits for the block under its current hash, once a block
    /// came back.
    pub fn match_returned(&mut self, job: &mut MatchJob<M>, block: Block<M>)
        requires
            old(self).wf(),
            old(self).has_room(1, 1),
            old(job)@.valid(),
            old(job)@.stage is Waiting,
        ensures
            final(self).wf(),
            final(job)@.valid(),
            old(self)@.match_receives(old(job)@, block, final(job)@, final(self)@),
            old(self)@.exclusive() && old(self)@.misses(old(job)@.current()) ==> {
                &&& final(self)@.exclusive()
                &&& final(job)@.stage is Waiting ==> final(self)@.misses(final(job)@.current())
            },
    {
        let sequence_hash = job.sequence_hashes[job.immutable_blocks.len()];
        if let Some(awaited) = self.offer_returned_block(sequence_hash, block) {
            let handle = self.promote(awaited);
            job.advance(handle);
            assert(old(self)@.promotes(block, handle, self@));
        }
        proof {
            if old(self)@.exclusive() && old(self)@.misses(old(job)@.current()) {
                law_waiting_match_keeps_exclusive(old(self)@, old(job)@, block, job@, self@);
            }
        }
    }
}

} // verus!
