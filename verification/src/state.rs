use tokio::sync::mpsc::UnboundedSender;
use vstd::prelude::*;

use crate::active::{gives_up, ActiveBlockPool};
use crate::block::{clone_sender, Block, MutableBlock};
use crate::errors::BlockPoolError;
use crate::exclusion::law_taking_back_keeps_exclusive;
use crate::inactive::{InactiveBlockPool, InactiveModel};
use crate::metadata::BlockMetadata;
use crate::outcomes::law_taking_back_all_adds_every_block;
use crate::requests::{BlockPoolStatus, ControlRequest, ControlResponse, ResetBlocksResponse};
use crate::tokens::SequenceHash;
use crate::weak::WeakBlock;

verus! {

/// What the state of a pool holds.
#[verifier::ext_equal]
#[verifier::reject_recursive_types(M)]
pub struct StateModel<M> {
    pub active: Map<SequenceHash, WeakBlock<M>>,
    pub inactive: InactiveModel<M>,
    pub return_tx: UnboundedSender<Block<M>>,
}

/// The sequence hashes of a response, sorted by what became of the blocks.
#[verifier::ext_equal]
pub struct ResetModel {
    pub reset_blocks: Seq<SequenceHash>,
    pub not_found: Seq<SequenceHash>,
    pub not_reset: Seq<SequenceHash>,
}

impl View for ResetBlocksResponse {
    type V = ResetModel;

    open spec fn view(&self) -> ResetModel {
        ResetModel {
            reset_blocks: self.reset_blocks@,
            not_found: self.not_found@,
            not_reset: self.not_reset@,
        }
    }
}

impl<M: BlockMetadata> InactiveModel<M> {
    /// The pool after the block under `sequence_hash`, if it is cached and `registered`,
    /// was reset and came back.
    pub open spec fn reset_cached(
        self,
        sequence_hash: SequenceHash,
        registered: bool,
    ) -> InactiveModel<M> {
        if registered && self.cached.contains_key(sequence_hash) {
            self.take(sequence_hash).return_block(self.cached[sequence_hash].cleared())
        } else {
            self
        }
    }

    /// The pool after the blocks under `hashes` were reset one after the other, where
    /// `registered` says of each hash whether it was registered at its turn.
    pub open spec fn reset_all_cached(
        self,
        hashes: Seq<SequenceHash>,
        registered: Seq<bool>,
    ) -> InactiveModel<M>
        decreases hashes.len(),
    {
        if hashes.len() == 0 {
            self
        } else {
            self.reset_all_cached(hashes.drop_last(), registered.drop_last()).reset_cached(
                hashes.last(),
                registered.last(),
            )
        }
    }
}

impl ResetModel {
    pub open spec fn none() -> ResetModel {
        ResetModel { reset_blocks: Seq::empty(), not_found: Seq::empty(), not_reset: Seq::empty() }
    }

    /// The response with `sequence_hash` added to the list where it belongs.
    pub open spec fn report(
        self,
        sequence_hash: SequenceHash,
        registered: bool,
        cached: bool,
    ) -> ResetModel {
        if !registered {
            ResetModel { not_found: self.not_found.push(sequence_hash), ..self }
        } else if cached {
            ResetModel { reset_blocks: self.reset_blocks.push(sequence_hash), ..self }
        } else {
            ResetModel { not_reset: self.not_reset.push(sequence_hash), ..self }
        }
    }

    /// The response to resetting `hashes` in the pool `before`.
    pub open spec fn report_all<M: BlockMetadata>(
        before: InactiveModel<M>,
        hashes: Seq<SequenceHash>,
        registered: Seq<bool>,
    ) -> ResetModel
        decreases hashes.len(),
    {
        if hashes.len() == 0 {
            ResetModel::none()
        } else {
            let earlier = hashes.drop_last();
            let known = registered.drop_last();
            ResetModel::report_all(before, earlier, known).report(
                hashes.last(),
                registered.last(),
                before.reset_all_cached(earlier, known).cached.contains_key(hashes.last()),
            )
        }
    }
}

impl<M: BlockMetadata> StateModel<M> {
    /// `after` is the state once `block` came back: the active pool gives it up, and the
    /// inactive pool takes what is left of it.
    pub open spec fn takes_back(self, block: Block<M>, after: StateModel<M>) -> bool {
        exists|left: Block<M>|
            {
                &&& #[trigger] gives_up(self.active, block, left, after.active)
                &&& after.inactive == self.inactive.return_block(left)
                &&& after.return_tx == self.return_tx
            }
    }

    /// `after` is the state once `blocks` came back one after the other.
    pub open spec fn takes_back_all(self, blocks: Seq<Block<M>>, after: StateModel<M>) -> bool
        decreases blocks.len(),
    {
        if blocks.len() == 0 {
            after == self
        } else {
            exists|between: StateModel<M>|
                {
                    &&& self.takes_back_all(blocks.drop_last(), between)
                    &&& #[trigger] between.takes_back(blocks.last(), after)
                }
        }
    }
}

/// `handles` are exclusive handles to `blocks`, which go back on `channel`.
pub open spec fn wraps<M>(
    handles: Seq<MutableBlock<M>>,
    blocks: Seq<Block<M>>,
    channel: UnboundedSender<Block<M>>,
) -> bool {
    &&& handles.len() == blocks.len()
    &&& forall|i: int|
        #![trigger handles[i]]
        #![trigger blocks[i]]
        0 <= i < handles.len() ==> handles[i].wraps(blocks[i], channel)
}

/// The two pools of blocks, and the channel on which blocks come back to them.
#[verifier::reject_recursive_types(M)]
pub struct State<M> {
    pub active: ActiveBlockPool<M>,
    pub inactive: InactiveBlockPool<M>,
    pub return_tx: UnboundedSender<Block<M>>,
}

impl<M> View for State<M> {
    type V = StateModel<M>;

    open spec fn view(&self) -> StateModel<M> {
        StateModel {
            active: self.active@,
            inactive: self.inactive@,
            return_tx: self.return_tx,
        }
    }
}

impl<M: BlockMetadata> State<M> {
    pub open spec fn wf(&self) -> bool {
        self.active.wf() && self.inactive.wf()
    }

    /// `blocks` more blocks and `ticks` more acquisitions and returns fit the machine.
    pub open spec fn has_room(&self, blocks: nat, ticks: nat) -> bool {
        &&& self@.inactive.len() + blocks <= usize::MAX
        &&& self@.inactive.return_tick + ticks <= u64::MAX
    }

    /// Creates a state without blocks, whose blocks come back on `return_tx`.
    pub fn new(return_tx: UnboundedSender<Block<M>>) -> (state: State<M>)
        ensures
            state.wf(),
            state@.active == Map::<SequenceHash, WeakBlock<M>>::empty(),
            state@.inactive.cached == Map::<SequenceHash, Block<M>>::empty(),
            state@.inactive.empty == Seq::<Block<M>>::empty(),
            state@.inactive.return_tick == 0,
            state@.inactive.total_blocks == 0,
            state@.return_tx == return_tx,
            state@.exclusive(),
    {
        State { active: ActiveBlockPool::new(), inactive: InactiveBlockPool::new(), return_tx }
    }

    /// Tells whether `blocks` more blocks and `ticks` more acquisitions and returns fit
    /// the machine.
    pub fn check_room(&self, blocks: usize, ticks: u64) -> (fits: bool)
        requires
            self.wf(),
        ensures
            fits == self.has_room(blocks as nat, ticks as nat),
    {
        let available = self.inactive.available_blocks();
        let tick = self.inactive.return_tick();
        available <= usize::MAX as u64 && blocks as u64 <= usize::MAX as u64 - available && ticks
            <= u64::MAX - tick
    }

    /// Hands out `count` free blocks, or none where fewer are available.
    pub fn allocate_blocks(&mut self, count: usize) -> (res: Result<
        Vec<MutableBlock<M>>,
        BlockPoolError,
    >)
        requires
            old(self).wf(),
            count <= old(self)@.inactive.len() ==> old(self)@.inactive.return_tick + count
                <= u64::MAX,
        ensures
            final(self).wf(),
            final(self)@.active == old(self)@.active,
            final(self)@.return_tx == old(self)@.return_tx,
            if count <= old(self)@.inactive.len() {
                &&& res matches Ok(blocks) && wraps(
                    blocks@,
                    old(self)@.inactive.free_blocks(count as nat),
                    old(self)@.return_tx,
                )
                &&& final(self)@.inactive == old(self)@.inactive.acquire_many(count as nat)
            } else {
                &&& res matches Err(BlockPoolError::NotEnoughBlocksAvailable(requested, available))
                    && requested == count && available == old(self)@.inactive.len()
                &&& final(self)@.inactive == old(self)@.inactive
            },
    {
        let ghost before = self@.inactive;
        proof {
            self.inactive.law_pool_is_valid();
        }
        let available_blocks = self.inactive.available_blocks() as usize;
        if available_blocks < count {
            return Err(BlockPoolError::NotEnoughBlocksAvailable(count, available_blocks));
        }
        let mut blocks: Vec<MutableBlock<M>> = Vec::new();
        let mut allocated: usize = 0;
        while allocated < count
            invariant
                self.wf(),
                self@.active == old(self)@.active,
                self@.return_tx == old(self)@.return_tx,
                before == old(self)@.inactive,
                allocated <= count <= before.len(),
                before.return_tick + count <= u64::MAX,
                self@.inactive.len() == before.len() - allocated,
                self@.inactive.return_tick == before.return_tick + allocated,
                self@.inactive == before.acquire_many(allocated as nat),
                wraps(blocks@, before.free_blocks(allocated as nat), self@.return_tx),
            decreases count - allocated,
        {
            if let Some(block) = self.inactive.acquire_free_block() {
                blocks.push(MutableBlock::new(block, clone_sender(&self.return_tx)));
            }
            allocated = allocated + 1;
        }
        Ok(blocks)
    }

    /// Takes back a block, and gives it up in the active pool.
    pub fn return_block(&mut self, block: Block<M>)
        requires
            old(self).wf(),
            old(self).has_room(1, 1),
        ensures
            final(self).wf(),
            old(self)@.takes_back(block, final(self)@),
            final(self)@.inactive.len() == old(self)@.inactive.len() + 1,
            final(self)@.inactive.return_tick == old(self)@.inactive.return_tick + 1,
            old(self)@.exclusive() ==> final(self)@.exclusive(),
    {
        let ghost given = block;
        let mut block = block;
        self.active.remove(&mut block);
        let ghost left = block;
        self.inactive.return_block(block);
        assert(gives_up(old(self)@.active, given, left, self@.active));
        proof {
            if old(self)@.exclusive() {
                law_taking_back_keeps_exclusive(old(self)@, given, self@);
            }
        }
    }

    /// Takes back a block that came in on the channel.
    pub fn handle_return_block(&mut self, block: Block<M>)
        requires
            old(self).wf(),
            old(self).has_room(1, 1),
        ensures
            final(self).wf(),
            old(self)@.takes_back(block, final(self)@),
            final(self)@.inactive.len() == old(self)@.inactive.len() + 1,
            final(self)@.inactive.return_tick == old(self)@.inactive.return_tick + 1,
            old(self)@.exclusive() ==> final(self)@.exclusive(),
    {
        self.return_block(block);
    }

    /// Looks at a block that came in while the one registered under `sequence_hash` is
    /// awaited: that one is given to the caller, and any other is taken back.
    pub fn offer_returned_block(
        &mut self,
        sequence_hash: SequenceHash,
        block: Block<M>,
    ) -> (awaited: Option<Block<M>>)
        requires
            old(self).wf(),
            old(self).has_room(1, 1),
        ensures
            final(self).wf(),
            if block.registered_as(sequence_hash) {
                awaited == Some(block) && final(self)@ == old(self)@
            } else {
                &&& awaited is None
                &&& old(self)@.takes_back(block, final(self)@)
                &&& final(self)@.inactive.len() == old(self)@.inactive.len() + 1
                &&& final(self)@.inactive.return_tick == old(self)@.inactive.return_tick + 1
            },
    {
        let registered = block.state().is_registered();
        if let Ok(hash) = block.sequence_hash() {
            if registered && hash == sequence_hash {
                return Some(block);
            }
        }
        self.handle_return_block(block);
        None
    }

    /// Takes back blocks in the order in which they are given.
    pub fn return_all_blocks(&mut self, blocks: Vec<Block<M>>)
        requires
            old(self).wf(),
            old(self).has_room(blocks@.len(), blocks@.len()),
        ensures
            final(self).wf(),
            old(self)@.takes_back_all(blocks@, final(self)@),
            final(self)@.inactive.len() == old(self)@.inactive.len() + blocks@.len(),
            final(self)@.inactive.return_tick == old(self)@.inactive.return_tick + blocks@.len(),
            forall|id: usize| #[trigger]
                final(self)@.inactive.holds(id) <==> old(self)@.inactive.holds(id) || exists|
                    i: int,
                |
                    0 <= i < blocks@.len() && (#[trigger] blocks@[i]).block_id == id,
            old(self)@.exclusive() ==> final(self)@.exclusive(),
    {
        let ghost given = blocks@;
        proof {
            self.inactive.law_pool_is_valid();
        }
        let ghost before = self@;
        let ghost all = blocks@;
        for block in iter: blocks
            invariant
                self.wf(),
                iter.seq() == all,
                before.inactive.len() + all.len() <= usize::MAX,
                before.inactive.return_tick + all.len() <= u64::MAX,
                self@.inactive.len() == before.inactive.len() + iter.index(),
                self@.inactive.return_tick == before.inactive.return_tick + iter.index(),
                before.takes_back_all(all.take(iter.index()), self@),
                before.exclusive() ==> self@.exclusive(),
        {
            let ghost between = self@;
            assert(all.take(iter.index() + 1).drop_last() =~= all.take(iter.index()));
            assert(all.take(iter.index() + 1).last() == block);
            self.return_block(block);
            assert(before.takes_back_all(all.take(iter.index() + 1).drop_last(), between));
            assert(between.takes_back(all.take(iter.index() + 1).last(), self@));
        }
        assert(all.take(all.len() as int) =~= all);
        proof {
            law_taking_back_all_adds_every_block(old(self)@, given, self@);
        }
    }

    /// How many blocks are where.
    pub fn status(&self) -> (status: BlockPoolStatus)
        requires
            self.wf(),
        ensures
            status.active_blocks == self@.active.len(),
            status.inactive_blocks == self@.inactive.cached.len(),
            status.empty_blocks == self@.inactive.empty.len(),
    {
        let active = self.active.status();
        let (inactive, empty) = self.inactive.status();
        BlockPoolStatus { active_blocks: active, inactive_blocks: inactive, empty_blocks: empty }
    }

    /// Resets the block under `sequence_hash` if it is cached, and reports what became of
    /// it; `registered` tells whether a block is registered under the hash.
    pub fn try_reset_block(
        &mut self,
        sequence_hash: SequenceHash,
        registered: bool,
        response: &mut ResetBlocksResponse,
    )
        requires
            old(self).wf(),
            old(self).has_room(0, 1),
        ensures
            final(self).wf(),
            final(self)@ == (StateModel {
                inactive: old(self)@.inactive.reset_cached(sequence_hash, registered),
                ..old(self)@
            }),
            final(self)@.inactive.len() == old(self)@.inactive.len(),
            final(self)@.inactive.return_tick <= old(self)@.inactive.return_tick + 1,
            final(response)@ == old(response)@.report(
                sequence_hash,
                registered,
                old(self)@.inactive.cached.contains_key(sequence_hash),
            ),
    {
        if !registered {
            response.not_found.push(sequence_hash);
            return ;
        }
        proof {
            self.inactive.law_pool_is_valid();
        }
        if let Some(block) = self.inactive.match_sequence_hash(sequence_hash) {
            response.reset_blocks.push(sequence_hash);
            let mut block = block;
            block.reset();
            self.inactive.return_block(block);
        } else {
            assert(self@.inactive =~= old(self)@.inactive);
            response.not_reset.push(sequence_hash);
        }
    }

    /// Resets the blocks under `sequence_hashes` that are cached, and reports what became
    /// of each; `is_registered` is asked of every hash at its turn.
    pub fn try_reset_blocks<F: Fn(SequenceHash) -> bool>(
        &mut self,
        sequence_hashes: &[SequenceHash],
        is_registered: F,
    ) -> (response: ResetBlocksResponse)
        requires
            old(self).wf(),
            old(self).has_room(0, sequence_hashes@.len()),
            forall|h: SequenceHash| #[trigger] call_requires(is_registered, (h,)),
        ensures
            final(self).wf(),
            exists|registered: Seq<bool>|
                {
                    &&& registered.len() == sequence_hashes@.len()
                    &&& forall|i: int|
                        0 <= i < registered.len() ==> call_ensures(
                            is_registered,
                            (sequence_hashes@[i],),
                            #[trigger] registered[i],
                        )
                    &&& final(self)@ == StateModel {
                        inactive: old(self)@.inactive.reset_all_cached(
                            sequence_hashes@,
                            registered,
                        ),
                        ..old(self)@
                    }
                    &&& response@ == #[trigger] ResetModel::report_all(
                        old(self)@.inactive,
                        sequence_hashes@,
                        registered,
                    )
                },
    {
        let ghost before = self@;
        let ghost mut answers: Seq<bool> = Seq::empty();
        let mut response = ResetBlocksResponse {
            reset_blocks: Vec::new(),
            not_found: Vec::new(),
            not_reset: Vec::new(),
        };
        let mut i: usize = 0;
        assert(response@ =~= ResetModel::none());
        while i < sequence_hashes.len()
            invariant
                self.wf(),
                before == old(self)@,
                forall|h: SequenceHash| #[trigger] call_requires(is_registered, (h,)),
                i <= sequence_hashes@.len(),
                answers.len() == i,
                forall|j: int|
                    0 <= j < i ==> call_ensures(
                        is_registered,
                        (sequence_hashes@[j],),
                        #[trigger] answers[j],
                    ),
                before.inactive.return_tick + sequence_hashes@.len() <= u64::MAX,
                self@.inactive.return_tick <= before.inactive.return_tick + i,
                self@.inactive.len() == before.inactive.len() <= usize::MAX,
                self@ == (StateModel {
                    inactive: before.inactive.reset_all_cached(
                        sequence_hashes@.take(i as int),
                        answers,
                    ),
                    ..before
                }),
                response@ == ResetModel::report_all(
                    before.inactive,
                    sequence_hashes@.take(i as int),
                    answers,
                ),
            decreases sequence_hashes@.len() - i,
        {
            let sequence_hash = sequence_hashes[i];
            let registered = is_registered(sequence_hash);
            proof {
                let more = sequence_hashes@.take(i + 1);
                assert(more.drop_last() =~= sequence_hashes@.take(i as int));
                assert(answers.push(registered).drop_last() =~= answers);
                answers = answers.push(registered);
            }
            self.try_reset_block(sequence_hash, registered, &mut response);
            i = i + 1;
        }
        assert(sequence_hashes@.take(i as int) =~= sequence_hashes@);
        response
    }

    /// Answers a request that manages the pool; `is_registered` tells of a sequence hash
    /// whether a block is registered under it.
    pub fn handle_control_request<F: Fn(SequenceHash) -> bool>(
        &mut self,
        request: ControlRequest<M>,
        is_registered: F,
    ) -> (response: ControlResponse)
        requires
            old(self).wf(),
            match request {
                ControlRequest::AddBlocks(blocks) => old(self).has_room(blocks@.len(), 0),
                ControlRequest::Status => true,
                ControlRequest::ResetBlocks(hashes) => old(self).has_room(0, hashes@.len()),
            },
            forall|h: SequenceHash| #[trigger] call_requires(is_registered, (h,)),
        ensures
            final(self).wf(),
            match request {
                ControlRequest::AddBlocks(blocks) => {
                    &&& response is BlocksAdded
                    &&& final(self)@ == (StateModel {
                        inactive: old(self)@.inactive.add_blocks(blocks@),
                        ..old(self)@
                    })
                },
                ControlRequest::Status => {
                    &&& response matches ControlResponse::Status(status) && {
                        &&& status.active_blocks == old(self)@.active.len()
                        &&& status.inactive_blocks == old(self)@.inactive.cached.len()
                        &&& status.empty_blocks == old(self)@.inactive.empty.len()
                    }
                    &&& final(self)@ == old(self)@
                },
                ControlRequest::ResetBlocks(hashes) => {
                    &&& response matches ControlResponse::ResetBlocks(reset) && exists|
                        registered: Seq<bool>,
                    |
                        {
                            &&& registered.len() == hashes@.len()
                            &&& forall|i: int|
                                0 <= i < registered.len() ==> call_ensures(
                                    is_registered,
                                    (hashes@[i],),
                                    #[trigger] registered[i],
                                )
                            &&& final(self)@ == StateModel {
                                inactive: old(self)@.inactive.reset_all_cached(hashes@, registered),
                                ..old(self)@
                            }
                            &&& reset@ == #[trigger] ResetModel::report_all(
                                old(self)@.inactive,
                                hashes@,
                                registered,
                            )
                        }
                },
            },
    {
        match request {
            ControlRequest::AddBlocks(blocks) => {
                self.inactive.add_blocks(blocks);
                ControlResponse::BlocksAdded
            },
            ControlRequest::Status => ControlResponse::Status(self.status()),
            ControlRequest::ResetBlocks(hashes) => {
                ControlResponse::ResetBlocks(
                    self.try_reset_blocks(hashes.as_slice(), is_registered),
                )
            },
        }
    }
}

} // verus!
