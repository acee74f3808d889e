use std::cell::RefCell;
use std::sync::Arc;

use block_pool::active::ActiveBlockPool;
use block_pool::block::{Block, BlockState, CompleteState, ImmutableBlock, MutableBlock};
use block_pool::dispatch::PriorityStep;
use block_pool::errors::{BlockError, BlockPoolError};
use block_pool::matching::JobAction;
use block_pool::metadata::BasicMetadata;
use block_pool::registration::{RegisterStep, RegistrationFailure};
use block_pool::requests::{
    BlockPoolStatus, BlockRegistrationDuplicationSetting, ControlRequest, ControlResponse,
    PriorityRequest, ResetBlocksResponse,
};
use block_pool::state::State;
use block_pool::tokens::{SequenceHash, TokenBlock};
use block_pool::weak::WeakBlock;
use tokio::sync::mpsc::{unbounded_channel, UnboundedReceiver};

type TestBlock = Block<BasicMetadata>;
type TestHandle = MutableBlock<BasicMetadata>;
type TestShared = ImmutableBlock<BasicMetadata>;

type TestState = State<BasicMetadata>;

fn new_state(blocks: usize) -> (TestState, UnboundedReceiver<TestBlock>) {
    let (return_tx, return_rx) = unbounded_channel();
    let mut state = TestState::new(return_tx);
    let response = state.handle_control_request(
        ControlRequest::AddBlocks(
            (0..blocks).map(|id| Block::new(id, BasicMetadata::default())).collect(),
        ),
        |_| false,
    );
    assert_eq!(response, ControlResponse::BlocksAdded);
    (state, return_rx)
}

fn allocate(state: &mut TestState, count: usize) -> Vec<TestHandle> {
    match state.handle_priority_request::<()>(PriorityRequest::AllocateBlocks(count)) {
        PriorityStep::Allocated(Ok(blocks)) => blocks,
        _ => panic!("blocks were not allocated"),
    }
}

fn complete(handle: &mut TestHandle, hash: SequenceHash, parent: Option<SequenceHash>) {
    handle.update_state(BlockState::Complete(CompleteState::new(TokenBlock::new(hash, parent))));
}

/// Registers blocks that nobody registered before, and collects the offload priorities.
fn register(
    state: &mut TestState,
    blocks: Vec<TestHandle>,
    setting: BlockRegistrationDuplicationSetting,
) -> (Vec<TestShared>, Vec<u64>, Vec<SequenceHash>) {
    let mut priorities = Vec::new();
    let mut step = RegisterStep::Next(state.register_blocks(blocks, setting));
    loop {
        step = match step {
            RegisterStep::Next(job) => state.register_next(job),
            RegisterStep::Register(job, block) => {
                let hash = block.sequence_hash().unwrap();
                state.register_answered(job, block, Ok(Some(hash)))
            }
            RegisterStep::AwaitReturned(..) => panic!("nothing is on its way back"),
            RegisterStep::Offload(job, handle, priority) => {
                priorities.push(priority);
                RegisterStep::Next(job.offloaded(handle))
            }
            RegisterStep::Finished(result, published) => {
                return (result.unwrap(), priorities, published);
            }
        };
    }
}

fn registered(id: usize, hash: SequenceHash) -> TestBlock {
    let mut block = Block::new(id, BasicMetadata::default());
    block.update_state(BlockState::Complete(CompleteState::new(TokenBlock::new(hash, None))));
    block.mark_registered().unwrap();
    block
}

#[test]
fn allocation_hands_out_reset_blocks() {
    let (mut state, mut return_rx) = new_state(3);
    assert_eq!(
        state.allocate_blocks(4).err().unwrap(),
        BlockPoolError::NotEnoughBlocksAvailable(4, 3)
    );
    let blocks = allocate(&mut state, 2);
    assert_eq!(blocks.len(), 2);
    assert_eq!(blocks[0].block_id(), Some(0));
    assert!(blocks[1].block().unwrap().state().is_reset());
    assert_eq!(
        state.status(),
        BlockPoolStatus { active_blocks: 0, inactive_blocks: 0, empty_blocks: 1 }
    );
    drop(blocks);
    for _ in 0..2 {
        state.handle_return_block(return_rx.try_recv().unwrap());
    }
    assert!(return_rx.try_recv().is_err());
    assert_eq!(state.status().empty_blocks, 3);
}

#[test]
fn registered_blocks_are_shared_and_come_back() {
    let (mut state, mut return_rx) = new_state(4);
    let mut blocks = allocate(&mut state, 2);
    complete(&mut blocks[0], 100, None);
    complete(&mut blocks[1], 101, Some(100));
    let (handles, priorities, published) =
        register(&mut state, blocks, BlockRegistrationDuplicationSetting::Disabled);
    assert_eq!(handles.len(), 2);
    assert_eq!(handles[0].sequence_hash(), Ok(100));
    assert_eq!(handles[1].sequence_hash(), Ok(101));
    assert_eq!(priorities, vec![0, 0]);
    assert_eq!(published, vec![100, 101]);
    assert_eq!(
        state.status(),
        BlockPoolStatus { active_blocks: 2, inactive_blocks: 0, empty_blocks: 2 }
    );

    let mut handles = handles;
    let child = handles.pop().unwrap();
    drop(handles);
    assert!(return_rx.try_recv().is_err());
    assert!(state.active.match_sequence_hash(100).is_some());
    drop(child);
    let first = return_rx.try_recv().unwrap();
    let second = return_rx.try_recv().unwrap();
    assert_eq!(first.sequence_hash(), Ok(101));
    assert_eq!(second.sequence_hash(), Ok(100));
    state.return_block(first);
    state.return_block(second);
    assert_eq!(
        state.status(),
        BlockPoolStatus { active_blocks: 0, inactive_blocks: 2, empty_blocks: 2 }
    );
}

#[test]
fn duplicates_are_kept_or_returned() {
    let (mut state, mut return_rx) = new_state(4);
    let mut blocks = allocate(&mut state, 3);
    let mut third = blocks.pop().unwrap();
    let mut second = blocks.pop().unwrap();
    complete(&mut blocks[0], 100, None);
    complete(&mut second, 100, None);
    complete(&mut third, 100, None);
    let (first, _, _) = register(&mut state, blocks, BlockRegistrationDuplicationSetting::Allowed);

    let (kept, priorities, published) =
        register(&mut state, vec![second], BlockRegistrationDuplicationSetting::Allowed);
    assert_eq!(kept[0].block_id(), first[0].block_id());
    assert_eq!(kept[0].duplicate.as_ref().unwrap().block_id(), Some(1));
    assert!(priorities.is_empty());
    assert!(published.is_empty());

    let before = state.status().empty_blocks;
    let (shared, _, _) =
        register(&mut state, vec![third], BlockRegistrationDuplicationSetting::Disabled);
    assert_eq!(shared[0].block_id(), first[0].block_id());
    assert!(shared[0].duplicate.is_none());
    assert_eq!(state.status().empty_blocks, before + 1);
    assert!(return_rx.try_recv().is_err());
    drop(kept);
    assert_eq!(return_rx.try_recv().unwrap().block_id(), 1);
}

#[test]
fn cached_block_becomes_the_primary() {
    let (mut state, mut return_rx) = new_state(2);
    state.inactive.add_blocks_with_state(vec![registered(7, 100)]);
    let mut blocks = allocate(&mut state, 1);
    complete(&mut blocks[0], 100, None);
    let (handles, priorities, published) =
        register(&mut state, blocks, BlockRegistrationDuplicationSetting::Disabled);
    assert_eq!(handles[0].block_id(), Some(7));
    assert_eq!(priorities, vec![0]);
    assert!(published.is_empty());
    assert_eq!(
        state.status(),
        BlockPoolStatus { active_blocks: 1, inactive_blocks: 0, empty_blocks: 2 }
    );
    drop(handles);
    assert_eq!(return_rx.try_recv().unwrap().block_id(), 7);
}

#[test]
fn registration_waits_for_a_block_in_flight() {
    let (mut state, _return_rx) = new_state(2);
    let mut blocks = allocate(&mut state, 1);
    complete(&mut blocks[0], 100, None);
    let job = state.register_blocks::<()>(blocks, BlockRegistrationDuplicationSetting::Allowed);
    let RegisterStep::Register(job, block) = state.register_next(job) else {
        panic!("the registry is to be asked");
    };
    let step = state.register_answered(job, block, Err(RegistrationFailure::AlreadyRegistered));
    let RegisterStep::AwaitReturned(job, duplicate, hash) = step else {
        panic!("the registered block is to be awaited");
    };
    assert_eq!(hash, 100);
    let step = state.register_returned(job, duplicate, hash, registered(8, 55));
    let RegisterStep::AwaitReturned(job, duplicate, hash) = step else {
        panic!("another block does not end the wait");
    };
    assert_eq!(state.status().inactive_blocks, 1);
    let RegisterStep::Next(job) = state.register_returned(job, duplicate, hash, registered(9, 100))
    else {
        panic!("the block is done without offloading");
    };
    let RegisterStep::Finished(Ok(handles), published) = state.register_next(job) else {
        panic!("the job is done");
    };
    assert_eq!(handles[0].block_id(), Some(9));
    assert_eq!(handles[0].duplicate.as_ref().unwrap().block_id(), Some(0));
    assert!(published.is_empty());
}

#[test]
fn registration_failures_end_the_job() {
    let (mut state, mut return_rx) = new_state(3);
    let mut blocks = allocate(&mut state, 2);
    complete(&mut blocks[0], 100, None);
    let job = state.register_blocks::<()>(blocks, BlockRegistrationDuplicationSetting::Allowed);
    let RegisterStep::Register(job, block) = state.register_next(job) else {
        panic!("the registry is to be asked");
    };
    let refusal = RegistrationFailure::Failed("registry is full".to_string());
    let RegisterStep::Finished(result, _) = state.register_answered(job, block, Err(refusal)) else {
        panic!("the job ends");
    };
    assert_eq!(
        result.err().unwrap(),
        BlockPoolError::FailedToRegisterBlock("registry is full".to_string())
    );
    assert!(return_rx.try_recv().is_ok());
    assert!(return_rx.try_recv().is_ok());

    let blocks = allocate(&mut state, 1);
    let job = state.register_blocks::<()>(blocks, BlockRegistrationDuplicationSetting::Allowed);
    let RegisterStep::Finished(result, _) = state.register_next(job) else {
        panic!("a block without content has no hash");
    };
    assert_eq!(result.err().unwrap(), BlockPoolError::BlockError(BlockError::InvalidState));
}

#[test]
fn active_pool_takes_registered_blocks_only() {
    let (return_tx, mut return_rx) = unbounded_channel();
    let mut pool: ActiveBlockPool<BasicMetadata> = ActiveBlockPool::default();
    let empty = MutableBlock::new(Block::new(0, BasicMetadata::default()), return_tx.clone());
    assert_eq!(
        pool.register(empty).err().unwrap(),
        BlockPoolError::InvalidMutableBlock("block is not registered".to_string())
    );
    assert_eq!(return_rx.try_recv().unwrap().block_id(), 0);

    let first = pool.register(MutableBlock::new(registered(1, 5), return_tx.clone())).unwrap();
    let again = pool.register(MutableBlock::new(registered(2, 5), return_tx.clone())).unwrap();
    assert_eq!(again.block_id(), Some(1));
    assert_eq!(return_rx.try_recv().unwrap().block_id(), 2);
    assert_eq!(pool.status(), 1);

    let mut other = registered(3, 5);
    pool.remove(&mut other);
    assert!(other.state().is_reset());
    assert_eq!(pool.status(), 1);

    drop(first);
    drop(again);
    let mut returned = return_rx.try_recv().unwrap();
    pool.remove(&mut returned);
    assert!(returned.state().is_registered());
    assert_eq!(pool.status(), 0);

    let third = pool.register(MutableBlock::new(registered(4, 6), return_tx)).unwrap();
    drop(third);
    assert_eq!(pool.status(), 1);
    assert!(pool.match_sequence_hash(6).is_none());
    assert_eq!(pool.status(), 0);
}

#[test]
fn references_are_upgraded_while_somebody_holds_the_block() {
    let (return_tx, mut return_rx) = unbounded_channel();
    let shared = Arc::new(MutableBlock::new(registered(1, 5), return_tx));
    let reference = WeakBlock::downgrade(&shared);
    let again = reference.upgrade().unwrap();
    assert!(Arc::ptr_eq(&shared, &again));
    drop(shared);
    assert_eq!(reference.upgrade().unwrap().block_id(), Some(1));
    drop(again);
    assert!(reference.upgrade().is_none());
    assert_eq!(return_rx.try_recv().unwrap().block_id(), 1);
}

#[test]
fn answers_of_references_settle_the_active_pool() {
    let (return_tx, mut return_rx) = unbounded_channel();
    let mut pool: ActiveBlockPool<BasicMetadata> = ActiveBlockPool::new();
    let shared = |id| Arc::new(MutableBlock::new(registered(id, 5), return_tx.clone()));
    let held = pool.settle_register(5, shared(1), None);
    assert_eq!(held.block_id(), Some(1));
    assert_eq!(pool.status(), 1);
    let given = pool.settle_register(5, shared(2), Some(held.block.clone()));
    assert_eq!(given.block_id(), Some(1));
    assert_eq!(return_rx.try_recv().unwrap().block_id(), 2);

    let found = pool.settle_match(5, Some(held.block.clone())).unwrap();
    assert_eq!(found.block_id(), Some(1));
    let mut alive = registered(3, 5);
    pool.settle_remove(&mut alive, 5, true);
    assert!(alive.state().is_reset());
    assert_eq!(pool.status(), 1);
    let mut stale = registered(4, 5);
    pool.settle_remove(&mut stale, 5, false);
    assert!(stale.state().is_registered());
    assert_eq!(pool.status(), 0);
    assert!(pool.settle_match(5, None).is_none());
}

#[test]
fn a_hash_is_alive_or_cached() {
    let (mut state, mut return_rx) = new_state(0);
    let held = state.promote(registered(0, 10));
    state.return_block(registered(1, 10));
    assert_eq!(
        state.status(),
        BlockPoolStatus { active_blocks: 1, inactive_blocks: 0, empty_blocks: 1 }
    );
    drop(held);
    state.return_block(return_rx.try_recv().unwrap());
    assert_eq!(
        state.status(),
        BlockPoolStatus { active_blocks: 0, inactive_blocks: 1, empty_blocks: 1 }
    );
    let mut job = state.match_sequence_hashes(vec![10]);
    state.match_registered(&mut job, true);
    assert_eq!(job.immutable_blocks[0].block_id(), Some(0));
    assert_eq!(
        state.status(),
        BlockPoolStatus { active_blocks: 1, inactive_blocks: 0, empty_blocks: 1 }
    );
}

#[test]
fn a_block_is_shared_without_its_predecessor() {
    let (mut state, mut return_rx) = new_state(2);
    let mut blocks = allocate(&mut state, 2);
    complete(&mut blocks[0], 100, None);
    complete(&mut blocks[1], 101, Some(100));
    let child = blocks.pop().unwrap();
    let (parent, _, _) =
        register(&mut state, blocks, BlockRegistrationDuplicationSetting::Disabled);
    drop(parent);
    let (handles, _, _) =
        register(&mut state, vec![child], BlockRegistrationDuplicationSetting::Disabled);
    assert_eq!(handles[0].sequence_hash(), Ok(101));
    assert!(state.active.match_sequence_hash(100).is_none());
    assert_eq!(return_rx.try_recv().unwrap().sequence_hash(), Ok(100));
    assert_eq!(state.status().active_blocks, 1);
}

#[test]
fn a_handle_takes_one_duplicate() {
    let (return_tx, _return_rx) = unbounded_channel();
    let shared = |id| Arc::new(MutableBlock::new(registered(id, 5), return_tx.clone()));
    let handle = ImmutableBlock::new(shared(0)).with_duplicate(shared(1)).unwrap();
    assert_eq!(handle.with_duplicate(shared(2)).err().unwrap(), BlockError::NotPrimary);
}

#[test]
fn matching_finds_active_cached_and_returning_blocks() {
    let (mut state, _return_rx) = new_state(2);
    let mut blocks = allocate(&mut state, 1);
    complete(&mut blocks[0], 100, None);
    let (active, _, _) =
        register(&mut state, blocks, BlockRegistrationDuplicationSetting::Disabled);
    state.inactive.add_blocks_with_state(vec![registered(7, 101)]);

    let mut job = state.match_sequence_hashes(vec![100, 101, 102, 103, 104]);
    let mut queries = Vec::new();
    loop {
        match job.action() {
            JobAction::QueryRegistered(hash) => {
                queries.push(hash);
                state.match_registered(&mut job, hash != 103);
            }
            JobAction::AwaitReturned(hash) => {
                assert_eq!(hash, 102);
                state.match_returned(&mut job, registered(5, 44));
                assert_eq!(job.action(), JobAction::AwaitReturned(102));
                state.match_returned(&mut job, registered(6, 102));
            }
            JobAction::Done => break,
        }
    }
    assert_eq!(queries, vec![100, 101, 102, 103]);
    let ids: Vec<_> = job.immutable_blocks.iter().map(|b| b.block_id()).collect();
    assert_eq!(ids, vec![active[0].block_id(), Some(7), Some(6)]);
    assert_eq!(
        state.status(),
        BlockPoolStatus { active_blocks: 3, inactive_blocks: 1, empty_blocks: 1 }
    );
    assert_eq!(state.match_sequence_hashes(Vec::new()).action(), JobAction::Done);
}

#[test]
fn touched_blocks_are_evicted_last() {
    let (mut state, _return_rx) = new_state(0);
    state.inactive.add_blocks_with_state(vec![registered(0, 10), registered(1, 11)]);
    let held = state.promote(registered(2, 12));
    let PriorityStep::Touching(mut job) =
        state.handle_priority_request::<()>(PriorityRequest::TouchBlocks(vec![10, 12, 13, 14]))
    else {
        panic!("a job is started");
    };
    loop {
        match job.action() {
            JobAction::QueryRegistered(hash) => state.touch_registered(&mut job, hash != 14),
            JobAction::AwaitReturned(hash) => {
                assert_eq!(hash, 13);
                state.touch_returned(&mut job, registered(3, 13));
            }
            JobAction::Done => break,
        }
    }
    assert_eq!(job.touched, 3);
    assert_eq!(job.sequence_hashes[job.touched], 14);
    drop(held);
    let order: Vec<_> = allocate(&mut state, 3).iter().map(|b| b.block_id()).collect();
    assert_eq!(order, vec![Some(1), Some(0), Some(3)]);
}

#[test]
fn reset_requests_sort_the_hashes() {
    let (mut state, _return_rx) = new_state(0);
    state.inactive.add_blocks_with_state(vec![registered(0, 10), registered(1, 11)]);
    let handle = state.promote(registered(2, 12));
    let known = RefCell::new(vec![10, 11, 12]);
    let response = state.handle_control_request(
        ControlRequest::ResetBlocks(vec![10, 12, 99, 10]),
        |hash| {
            let found = known.borrow().contains(&hash);
            known.borrow_mut().retain(|k| *k != hash);
            found
        },
    );
    assert_eq!(
        response,
        ControlResponse::ResetBlocks(ResetBlocksResponse {
            reset_blocks: vec![10],
            not_found: vec![99, 10],
            not_reset: vec![12],
        })
    );
    assert_eq!(
        state.handle_control_request(ControlRequest::Status, |_| false),
        ControlResponse::Status(BlockPoolStatus {
            active_blocks: 1,
            inactive_blocks: 1,
            empty_blocks: 1,
        })
    );
    drop(handle);
}

#[test]
fn a_cached_block_is_reset_once() {
    let (mut state, _return_rx) = new_state(1);
    state
        .inactive
        .add_blocks_with_state(vec![registered(5, 10), registered(6, 11), registered(7, 12)]);
    let response = state.try_reset_blocks(&[10, 12, 10, 99], |_| true);
    assert_eq!(
        response,
        ResetBlocksResponse {
            reset_blocks: vec![10, 12],
            not_found: vec![],
            not_reset: vec![10, 99],
        }
    );
    assert_eq!(state.inactive.status(), (1, 3));
    assert_eq!(state.inactive.match_sequence_hash(11).unwrap().block_id(), 6);
}

#[test]
fn pool_requests_are_answered() {
    let (mut state, mut return_rx) = new_state(2);
    let blocks = allocate(&mut state, 1);
    let PriorityStep::Reset(refused) = state.handle_priority_request::<()>(PriorityRequest::Reset)
    else {
        panic!("a reset is answered");
    };
    assert_eq!(
        refused.unwrap_err(),
        BlockPoolError::ResetError("total blocks: 2, available blocks: 1".to_string())
    );
    drop(blocks);
    let returned = vec![return_rx.try_recv().unwrap()];
    assert!(state.check_room(1, 1));
    assert!(matches!(
        state.handle_priority_request::<()>(PriorityRequest::ReturnBlock(returned)),
        PriorityStep::Returned
    ));
    let PriorityStep::Reset(done) = state.handle_priority_request::<()>(PriorityRequest::Reset)
    else {
        panic!("a reset is answered");
    };
    assert!(done.is_ok());
    assert!(!state.check_room(usize::MAX, 0));
    assert!(!state.check_room(0, u64::MAX));
}

#[test]
fn a_taken_block_is_not_sent_back() {
    let (return_tx, mut return_rx) = unbounded_channel();
    let handle = MutableBlock::new(registered(1, 5), return_tx);
    let blocks = handle.try_take_block().unwrap();
    assert_eq!(blocks.len(), 1);
    assert_eq!(blocks[0].block_id(), 1);
    assert!(return_rx.try_recv().is_err());
}
