use vstd::prelude::*;

use crate::block::{Block, ImmutableBlock};
use crate::exclusion::{law_touch_keeps_exclusive, law_waiting_touch_keeps_exclusive};
use crate::matching::{JobAction, JobStage};
use crate::metadata::BlockMetadata;
use crate::state::{State, StateModel};
use crate::tokens::SequenceHash;

verus! {

/// Blocks to be moved to the end of the order of eviction, up to the first hash under which
/// none is registered.
pub struct TouchJob {
    pub sequence_hashes: Vec<SequenceHash>,
    pub touched: usize,
    pub stage: JobStage,
}

#[verifier::ext_equal]
pub struct TouchModel {
    pub hashes: Seq<SequenceHash>,
    pub touched: nat,
    pub stage: JobStage,
}

impl View for TouchJob {
    type V = TouchModel;

    open spec fn view(&self) -> TouchModel {
        TouchModel {
            hashes: self.sequence_hashes@,
            touched: self.touched as nat,
            stage: self.stage,
        }
    }
}

impl TouchModel {
    /// A job that is not done has a hash left.
    pub open spec fn valid(self) -> bool {
        &&& self.touched <= self.hashes.len()
        &&& self.stage !is Done ==> self.touched < self.hashes.len()
    }

    pub open spec fn current(self) -> SequenceHash {
        self.hashes[self.touched as int]
    }

    /// The job once the current hash was dealt with.
    pub open spec fn advance(self) -> TouchModel {
        TouchModel {
            touched: self.touched + 1,
            stage: if self.touched + 1 < self.hashes.len() {
                JobStage::Query
            } else {
                JobStage::Done
            },
            ..self
        }
    }

    /// The job at another stage.
    pub open spec fn at(self, stage: JobStage) -> TouchModel {
        TouchModel { stage, ..self }
    }
}

impl TouchJob {
    fn advance(&mut self)
        requires
            old(self)@.valid(),
            old(self)@.touched < old(self)@.hashes.len(),
        ensures
            final(self)@ == old(self)@.advance(),
            final(self)@.valid(),
    {
        let count = self.sequence_hashes.len();
        self.touched = self.touched + 1;
        self.stage =
        if self.touched < count {
            JobStage::Query
        } else {
            JobStage::Done
        };
    }

    /// What is to be done for the job.
    pub fn action(&self) -> (action: JobAction)
        requires
            self@.valid(),
        ensures
            action == self@.stage.action(self@.current()),
    {
        match self.stage {
            JobStage::Query => JobAction::QueryRegistered(self.sequence_hashes[self.touched]),
            JobStage::Waiting => JobAction::AwaitReturned(self.sequence_hashes[self.touched]),
            JobStage::Done => JobAction::Done,
        }
    }
}

impl<M: BlockMetadata> StateModel<M> {
    /// `job` goes on to `next`, and the state to `after`, once it is known whether a block
    /// is registered under the current hash. A cached block leaves the inactive pool and
    /// comes back to it; one that is not active either is awaited.
    pub open spec fn touch_goes_on(
        self,
        job: TouchModel,
        registered: bool,
        next: TouchModel,
        after: StateModel<M>,
    ) -> bool {
        let hash = job.current();
        if !registered {
            next == job.at(JobStage::Done) && after == self
        } else if self.inactive.cached.contains_key(hash) {
            &&& next == job.advance()
            &&& after == StateModel {
                inactive: self.inactive.take(hash).return_block(self.inactive.cached[hash]),
                ..self
            }
        } else {
            exists|found: Option<ImmutableBlock<M>>|
                {
                    &&& #[trigger] self.looks_up(job.current(), found, after)
                    &&& next == match found {
                        Some(_) => job.advance(),
                        None => job.at(JobStage::Waiting),
                    }
                }
        }
    }

    /// `job`, which waits, goes on to `next`, and the state to `after`, once `block` came
    /// back: the awaited block goes to the inactive pool, any other is taken back.
    pub open spec fn touch_receives(
        self,
        job: TouchModel,
        block: Block<M>,
        next: TouchModel,
        after: StateModel<M>,
    ) -> bool {
        if block.registered_as(job.current()) {
            &&& next == job.advance()
            &&& after == StateModel { inactive: self.inactive.return_block(block), ..self }
        } else {
            next == job && self.takes_back(block, after)
        }
    }
}

impl<M: BlockMetadata> State<M> {
    /// Starts to touch blocks by their sequence hashes.
    pub fn touch_blocks(&self, sequence_hashes: Vec<SequenceHash>) -> (job: TouchJob)
        ensures
            job@.hashes == sequence_hashes@,
            job@.touched == 0,
            job@.stage == (if sequence_hashes@.len() > 0 {
                JobStage::Query
            } else {
                JobStage::Done
            }),
            job@.valid(),
    {
        let stage = if sequence_hashes.len() > 0 {
            JobStage::Query
        } else {
            JobStage::Done
        };
        TouchJob { sequence_hashes, touched: 0, stage }
    }

    /// Goes on with `job` once it is known whether a block is registered under its current
    /// hash.
    pub fn touch_registered(&mut self, job: &mut TouchJob, registered: bool)
        requires
            old(self).wf(),
            old(self).has_room(0, 1),
            old(job)@.valid(),
            old(job)@.stage is Query,
        ensures
            final(self).wf(),
            final(job)@.valid(),
            old(self)@.touch_goes_on(old(job)@, registered, final(job)@, final(self)@),
            old(self)@.exclusive() ==> {
                &&& final(self)@.exclusive()
                &&& final(job)@.stage is Waiting ==> final(self)@.lacks(final(job)@.current())
            },
    {
        proof {
            self.inactive.law_pool_is_valid();
        }
        let sequence_hash = job.sequence_hashes[job.touched];
        if !registered {
            job.stage = JobStage::Done;
            assert(job@ =~= old(job)@.at(JobStage::Done));
        } else {
            match self.inactive.match_sequence_hash(sequence_hash) {
                Some(block) => {
                    self.inactive.return_block(block);
                    job.advance();
                },
                None => {
                    assert(self@.inactive =~= old(self)@.inactive);
                    let found = self.active.match_sequence_hash(sequence_hash);
                    if found.is_none() {
                        job.stage = JobStage::Waiting;
                    } else {
                        job.advance();
                    }
                    assert(old(self)@.looks_up(old(job)@.current(), found, self@));
                },
            }
        }
        proof {
            if old(self)@.exclusive() {
                law_touch_keeps_exclusive(old(self)@, old(job)@, registered, job@, self@);
            }
        }
    }

    /// Goes on with `job`, which waits for the block under its current hash, once a block
    /// came back.
    pub fn touch_returned(&mut self, job: &mut TouchJob, block: Block<M>)
        requires
            old(self).wf(),
            old(self).has_room(1, 1),
            old(job)@.valid(),
            old(job)@.stage is Waiting,
        ensures
            final(self).wf(),
            final(job)@.valid(),
            old(self)@.touch_receives(old(job)@, block, final(job)@, final(self)@),
            old(self)@.exclusive() && old(self)@.lacks(old(job)@.current()) ==> {
                &&& final(self)@.exclusive()
                &&& final(job)@.stage is Waiting ==> final(self)@.lacks(final(job)@.current())
            },
    {
        let sequence_hash = job.sequence_hashes[job.touched];
        if let Some(awaited) = self.offer_returned_block(sequence_hash, block) {
            self.inactive.return_block(awaited);
            job.advance();
        }
        proof {
            if old(self)@.exclusive() && old(self)@.lacks(old(job)@.current()) {
                law_waiting_touch_keeps_exclusive(old(self)@, old(job)@, block, job@, self@);
            }
        }
    }
}

} // verus!
