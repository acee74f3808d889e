use vstd::prelude::*;

use crate::block::{ImmutableBlock, MutableBlock};
use crate::errors::BlockPoolError;
use crate::matching::{JobStage, MatchJob};
use crate::metadata::BlockMetadata;
use crate::registration::{RegisterJob, RegisterModel};
use crate::requests::PriorityRequest;
use crate::state::{wraps, State, StateModel};
use crate::text::reset_refusal;
use crate::touching::TouchJob;

verus! {

/// How a request that moves blocks goes on: it is answered, or a job was started.
#[verifier::reject_recursive_types(M)]
pub enum PriorityStep<M, P> {
    Allocated(Result<Vec<MutableBlock<M>>, BlockPoolError>),
    Registering(RegisterJob<M, P>),
    Matching(MatchJob<M>),
    Touching(TouchJob),
    Reset(Result<(), BlockPoolError>),
    Returned,
}

/// The stage at which a job over `count` hashes starts.
pub open spec fn first_stage(count: nat) -> JobStage {
    if count > 0 {
        JobStage::Query
    } else {
        JobStage::Done
    }
}

impl<M: BlockMetadata> State<M> {
    /// The request is one that can be made, and what it needs fits the machine.
    pub open spec fn accepts(&self, request: PriorityRequest<M>) -> bool {
        let pool = self@.inactive;
        match request {
            PriorityRequest::AllocateBlocks(count) => {
                count <= pool.len() ==> pool.return_tick + count <= u64::MAX
            },
            PriorityRequest::RegisterBlocks(blocks, _) => blocks@.len() > 0,
            PriorityRequest::MatchSequenceHashes(_) => true,
            PriorityRequest::TouchBlocks(_) => true,
            PriorityRequest::Reset => {
                pool.total_blocks == pool.len() ==> pool.return_tick + 2 * pool.len() <= u64::MAX
            },
            PriorityRequest::ReturnBlock(blocks) => self.has_room(blocks@.len(), blocks@.len()),
        }
    }

    /// Deals with a request that moves blocks.
    pub fn handle_priority_request<P>(
        &mut self,
        request: PriorityRequest<M>,
    ) -> (step: PriorityStep<M, P>)
        requires
            old(self).wf(),
            old(self).accepts(request),
        ensures
            final(self).wf(),
            match request {
                PriorityRequest::AllocateBlocks(count) => {
                    let before = old(self)@.inactive;
                    if count <= before.len() {
                        &&& step matches PriorityStep::Allocated(Ok(blocks)) && wraps(
                            blocks@,
                            before.free_blocks(count as nat),
                            old(self)@.return_tx,
                        )
                        &&& final(self)@ == (StateModel {
                            inactive: before.acquire_many(count as nat),
                            ..old(self)@
                        })
                    } else {
                        &&& step matches PriorityStep::Allocated(
                            Err(BlockPoolError::NotEnoughBlocksAvailable(requested, available)),
                        ) && requested == count && available == before.len()
                        &&& final(self)@ == old(self)@
                    }
                },
                PriorityRequest::RegisterBlocks(blocks, setting) => {
                    &&& step matches PriorityStep::Registering(job) && job@ == (RegisterModel {
                        setting,
                        queue: blocks@,
                        done: Seq::empty(),
                        published: Seq::<P>::empty(),
                    })
                    &&& final(self)@ == old(self)@
                },
                PriorityRequest::MatchSequenceHashes(hashes) => {
                    &&& step matches PriorityStep::Matching(job) && {
                        &&& job@.hashes == hashes@
                        &&& job@.found == Seq::<ImmutableBlock<M>>::empty()
                        &&& job@.stage == first_stage(hashes@.len())
                    }
                    &&& final(self)@ == old(self)@
                },
                PriorityRequest::TouchBlocks(hashes) => {
                    &&& step matches PriorityStep::Touching(job) && {
                        &&& job@.hashes == hashes@
                        &&& job@.touched == 0
                        &&& job@.stage == first_stage(hashes@.len())
                    }
                    &&& final(self)@ == old(self)@
                },
                PriorityRequest::Reset => {
                    let before = old(self)@.inactive;
                    if before.total_blocks == before.len() {
                        &&& step matches PriorityStep::Reset(Ok(_))
                        &&& final(self)@ == (StateModel {
                            inactive: before.acquire_many(before.len()).return_blocks(
                                before.free_blocks(before.len()),
                            ),
                            ..old(self)@
                        })
                    } else {
                        &&& step matches PriorityStep::Reset(Err(BlockPoolError::ResetError(text)))
                            && text@ == reset_refusal(before.total_blocks as nat, before.len())
                        &&& final(self)@ == old(self)@
                    }
                },
                PriorityRequest::ReturnBlock(blocks) => {
                    &&& step is Returned
                    &&& old(self)@.takes_back_all(blocks@, final(self)@)
                    &&& final(self)@.inactive.len() == old(self)@.inactive.len() + blocks@.len()
                },
            },
    {
        match request {
            PriorityRequest::AllocateBlocks(count) => {
                PriorityStep::Allocated(self.allocate_blocks(count))
            },
            PriorityRequest::RegisterBlocks(blocks, setting) => {
                PriorityStep::Registering(self.register_blocks(blocks, setting))
            },
            PriorityRequest::MatchSequenceHashes(hashes) => {
                PriorityStep::Matching(self.match_sequence_hashes(hashes))
            },
            PriorityRequest::TouchBlocks(hashes) => {
                PriorityStep::Touching(self.touch_blocks(hashes))
            },
            PriorityRequest::Reset => PriorityStep::Reset(self.inactive.reset()),
            PriorityRequest::ReturnBlock(blocks) => {
                self.return_all_blocks(blocks);
                PriorityStep::Returned
            },
        }
    }
}

} // verus!
