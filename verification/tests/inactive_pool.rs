use std::collections::BTreeSet;
use std::sync::atomic::Ordering;

use block_pool::block::{Block, BlockState, CompleteState};
use block_pool::errors::BlockPoolError;
use block_pool::inactive::InactiveBlockPool;
use block_pool::metadata::BasicMetadata;
use block_pool::priority::{PriorityKey, PrioritySet};
use block_pool::tokens::{SequenceHash, TokenBlock};

type TestBlock = Block<BasicMetadata>;
type TestPool = InactiveBlockPool<BasicMetadata>;

fn make_priority_key(
    priority: u32,
    returned_tick: u64,
    sequence_hash: SequenceHash,
) -> PriorityKey<BasicMetadata> {
    PriorityKey::new(BasicMetadata::new(priority, returned_tick, 0), sequence_hash)
}

#[test]
fn test_priority_key_ord() {
    let mut map = BTreeSet::new();

    let hash1 = SequenceHash::from(1u64);
    let hash2 = SequenceHash::from(2u64);
    let hash3 = SequenceHash::from(3u64);

    map.insert(make_priority_key(0, 2, hash1));
    map.insert(make_priority_key(1, 1, hash2));
    map.insert(make_priority_key(0, 3, hash3));

    let mut set = PrioritySet::new();
    set.insert(make_priority_key(0, 2, hash1));
    set.insert(make_priority_key(1, 1, hash2));
    set.insert(make_priority_key(0, 3, hash3));

    let first_key = map.pop_first().unwrap();
    assert_eq!(first_key.metadata().priority, 0);
    assert_eq!(first_key.metadata().returned_tick, 2);
    assert_eq!(first_key.sequence_hash(), hash1);
    assert_eq!(set.pop_first().unwrap(), first_key);

    let second_key = map.pop_first().unwrap();
    assert_eq!(second_key.metadata().priority, 0);
    assert_eq!(second_key.metadata().returned_tick, 3);
    assert_eq!(second_key.sequence_hash(), hash3);
    assert_eq!(set.pop_first().unwrap(), second_key);

    let third_key = map.pop_first().unwrap();
    assert_eq!(third_key.metadata().priority, 1);
    assert_eq!(third_key.metadata().returned_tick, 1);
    assert_eq!(third_key.sequence_hash(), hash2);
    assert_eq!(set.pop_first().unwrap(), third_key);

    assert!(map.is_empty());
    assert!(set.is_empty());
}

/// Splits tokens into complete blocks and chains their hashes.
fn into_token_blocks(tokens: &[u32], block_size: usize) -> Vec<TokenBlock> {
    let mut blocks = Vec::new();
    let mut parent = None;
    for chunk in tokens.chunks_exact(block_size) {
        let mut hash: u64 = parent.unwrap_or(0xcbf2_9ce4_8422_2325);
        for token in chunk {
            hash = (hash ^ u64::from(*token)).wrapping_mul(0x0000_0100_0000_01b3);
        }
        blocks.push(TokenBlock::new(hash, parent));
        parent = Some(hash);
    }
    blocks
}

fn create_block_collection(num_blocks: usize) -> Vec<TestBlock> {
    (0..num_blocks).map(|id| Block::new(id, BasicMetadata::default())).collect()
}

fn fill(block: &mut TestBlock, token_block: TokenBlock) {
    assert!(block.state().is_reset());
    block.update_state(BlockState::Complete(CompleteState::new(token_block)));
    block.mark_registered().expect("Failed to register block in test helper");
    assert!(block.state().is_registered());
}

fn create_blocks(tokens: &[u32], block_size: usize) -> Vec<TestBlock> {
    let token_blocks = into_token_blocks(tokens, block_size);
    let mut blocks = create_block_collection(token_blocks.len());
    for (block, token_block) in blocks.iter_mut().zip(token_blocks) {
        fill(block, token_block);
    }
    blocks
}

fn create_block_pool(num_blocks: usize) -> TestPool {
    let mut pool = InactiveBlockPool::new();
    pool.add_blocks(create_block_collection(num_blocks));
    pool
}

fn acquire_blocks(tokens: &[u32], block_size: usize, pool: &mut TestPool) -> (Vec<TestBlock>, usize) {
    let mut token_blocks = into_token_blocks(tokens, block_size);
    let total_complete_blocks = token_blocks.len();

    let matched_blocks = pool.match_token_blocks(&token_blocks);
    let matched_block_count = matched_blocks.len();
    for block in &matched_blocks {
        assert!(block.state().is_registered());
    }

    token_blocks.drain(0..matched_block_count);
    assert_eq!(token_blocks.len() + matched_blocks.len(), total_complete_blocks);

    let mut unmatched_blocks = pool.acquire_free_blocks(token_blocks.len()).unwrap();
    assert_eq!(unmatched_blocks.len(), token_blocks.len());
    for unmatched in &unmatched_blocks {
        assert!(unmatched.state().is_reset());
    }
    for (unmatched, token_block) in unmatched_blocks.iter_mut().zip(token_blocks) {
        fill(unmatched, token_block);
    }

    let mut blocks = matched_blocks;
    blocks.extend(unmatched_blocks);
    (blocks, matched_block_count)
}

#[test]
fn test_block_pool_lifecycle() {
    const PAGE_SIZE: usize = 2;

    let mut pool = create_block_pool(10);
    assert_eq!(pool.total_blocks(), 10);
    assert_eq!(pool.available_blocks(), 10);

    let blocks = pool.acquire_free_blocks(10).unwrap();
    assert_eq!(blocks.len(), 10);
    assert_eq!(pool.total_blocks(), 10);
    assert_eq!(pool.available_blocks(), 0);

    pool.return_blocks(blocks);

    assert_eq!(pool.total_blocks(), 10);
    assert_eq!(pool.available_blocks(), 10);
    assert_eq!(
        pool.available_blocks_counter().load(Ordering::Relaxed),
        pool.available_blocks()
    );

    let tokens = [1, 2, 3, 4];

    let (blocks, matched_block_count) = acquire_blocks(&tokens, PAGE_SIZE, &mut pool);
    assert_eq!(blocks.len(), 2);
    assert_eq!(matched_block_count, 0);
    assert_eq!(pool.available_blocks(), 8);
    assert_eq!(
        pool.available_blocks_counter().load(Ordering::Relaxed),
        pool.available_blocks()
    );

    pool.return_blocks(blocks);

    assert_eq!(pool.total_blocks(), 10);
    assert_eq!(pool.available_blocks(), 10);
    assert_eq!(
        pool.available_blocks_counter().load(Ordering::Relaxed),
        pool.available_blocks()
    );

    let (blocks, matched_block_count) = acquire_blocks(&tokens, PAGE_SIZE, &mut pool);
    assert_eq!(blocks.len(), 2);
    assert_eq!(matched_block_count, 2);
    assert_eq!(pool.available_blocks(), 8);
    assert_eq!(
        pool.available_blocks_counter().load(Ordering::Relaxed),
        pool.available_blocks()
    );

    pool.return_blocks(blocks);

    assert_eq!(pool.total_blocks(), 10);
    assert_eq!(pool.available_blocks(), 10);
    assert_eq!(
        pool.available_blocks_counter().load(Ordering::Relaxed),
        pool.available_blocks()
    );

    let blocks = pool.acquire_free_blocks(10).unwrap();
    for block in &blocks {
        assert!(block.state().is_reset());
    }
}

#[test]
fn test_basic_sequence_matching() {
    let mut pool = InactiveBlockPool::new();

    let blocks = create_blocks(&[1, 2, 3, 4], 2);
    assert_eq!(blocks.len(), 2);

    let hashes: Vec<_> = blocks
        .iter()
        .map(|b| {
            b.sequence_hash()
                .expect("Block should have a sequence hash in this test")
        })
        .collect();

    pool.add_blocks_with_state(blocks);

    assert_eq!(pool.total_blocks(), 2);
    assert_eq!(pool.available_blocks(), 2);
    assert_eq!(
        pool.available_blocks_counter().load(Ordering::Relaxed),
        pool.available_blocks()
    );

    let matched = pool.match_sequence_hashes(hashes.clone());
    assert_eq!(matched.len(), 2);

    assert_eq!(pool.total_blocks(), 2);
    assert_eq!(pool.available_blocks(), 0);
    assert_eq!(
        pool.available_blocks_counter().load(Ordering::Relaxed),
        pool.available_blocks()
    );

    assert_eq!(matched[0].sequence_hash().unwrap(), hashes[0]);
    assert_eq!(matched[1].sequence_hash().unwrap(), hashes[1]);

    pool.return_blocks(matched);

    assert_eq!(pool.total_blocks(), 2);
    assert_eq!(pool.available_blocks(), 2);
    assert_eq!(
        pool.available_blocks_counter().load(Ordering::Relaxed),
        pool.available_blocks()
    );
}

fn registered(id: usize, hash: SequenceHash, priority: u32) -> TestBlock {
    let mut block = Block::new(id, BasicMetadata::new(priority, 0, 0));
    block.update_state(BlockState::Complete(CompleteState::new(TokenBlock::new(hash, None))));
    block.mark_registered().unwrap();
    block
}

#[test]
fn evicts_in_order_of_priority_then_tick() {
    let mut pool = TestPool::new();
    pool.add_blocks_with_state(vec![
        registered(0, 10, 1),
        registered(1, 11, 0),
        registered(2, 12, 0),
        registered(3, 13, 2),
    ]);
    assert_eq!(pool.status(), (4, 0));
    let order: Vec<usize> =
        (0..4).map(|_| pool.acquire_free_block().unwrap().block_id()).collect();
    assert_eq!(order, vec![1, 2, 0, 3]);
    assert!(pool.acquire_free_block().is_none());
}

#[test]
fn empty_blocks_go_before_cached_ones() {
    let mut pool = TestPool::new();
    pool.add_blocks_with_state(vec![registered(0, 10, 0)]);
    pool.add_blocks(vec![Block::new(1, BasicMetadata::default())]);
    assert_eq!(pool.status(), (1, 1));
    assert_eq!(pool.acquire_free_block().unwrap().block_id(), 1);
    assert_eq!(pool.status(), (1, 0));
    let evicted = pool.acquire_free_block().unwrap();
    assert_eq!(evicted.block_id(), 0);
    assert!(evicted.state().is_reset());
    assert_eq!(pool.status(), (0, 0));
}

#[test]
fn second_block_of_a_hash_is_emptied() {
    let mut pool = TestPool::new();
    pool.return_block(registered(0, 10, 5));
    pool.return_block(registered(1, 10, 7));
    assert_eq!(pool.status(), (1, 1));
    assert_eq!(pool.available_blocks(), 2);
    let kept = pool.match_sequence_hash(10).unwrap();
    assert_eq!(kept.block_id(), 0);
    assert_eq!(kept.metadata(), &BasicMetadata::new(5, 1, 0));
    assert!(pool.match_sequence_hash(10).is_none());
    let emptied = pool.acquire_free_block().unwrap();
    assert_eq!(emptied.block_id(), 1);
    assert_eq!(emptied.metadata(), &BasicMetadata::new(0, 2, 3));
    assert!(emptied.state().is_reset());
}

#[test]
fn unregistered_blocks_are_emptied() {
    let mut pool = TestPool::new();
    let mut partial = Block::new(0, BasicMetadata::new(3, 0, 0));
    partial.update_state(BlockState::Partial);
    let mut complete = Block::new(1, BasicMetadata::new(4, 0, 0));
    complete.update_state(BlockState::Complete(CompleteState::new(TokenBlock::new(9, None))));
    let reset = Block::new(2, BasicMetadata::new(5, 0, 0));
    pool.return_blocks(vec![partial, complete, reset]);
    assert_eq!(pool.status(), (0, 3));
    let blocks = pool.acquire_free_blocks(3).unwrap();
    let priorities: Vec<u32> = blocks.iter().map(|b| b.metadata().priority).collect();
    assert_eq!(priorities, vec![0, 0, 5]);
    for block in &blocks {
        assert!(block.state().is_reset());
    }
}

#[test]
fn matching_stops_at_the_first_miss() {
    let mut pool = TestPool::new();
    pool.add_blocks_with_state(vec![registered(0, 10, 0), registered(1, 11, 0), registered(2, 12, 0)]);
    let matched = pool.match_sequence_hashes(vec![10, 99, 11]);
    assert_eq!(matched.len(), 1);
    assert_eq!(matched[0].block_id(), 0);
    assert_eq!(pool.status(), (2, 0));
    let repeated = pool.match_sequence_hashes(vec![11, 11, 12]);
    assert_eq!(repeated.len(), 1);
    assert_eq!(pool.status(), (1, 0));
    let tokens = [TokenBlock::new(12, Some(11)), TokenBlock::new(13, Some(12))];
    assert_eq!(pool.match_token_blocks(&tokens).len(), 1);
    assert_eq!(pool.status(), (0, 0));
}

#[test]
fn too_many_blocks_are_refused() {
    let mut pool = create_block_pool(3);
    assert_eq!(
        pool.acquire_free_blocks(4).unwrap_err(),
        BlockPoolError::NotEnoughBlocksAvailable(4, 3)
    );
    assert_eq!(pool.available_blocks(), 3);
    assert!(pool.acquire_free_blocks(0).unwrap().is_empty());
    assert_eq!(pool.acquire_free_blocks(3).unwrap().len(), 3);
    assert_eq!(pool.return_tick(), 3);
}

#[test]
fn reset_empties_a_complete_pool() {
    let mut pool = TestPool::new();
    pool.add_blocks_with_state(vec![registered(0, 10, 2), registered(1, 11, 1)]);
    assert_eq!(pool.status(), (2, 0));
    assert!(pool.reset().is_ok());
    assert_eq!(pool.status(), (0, 2));
    assert_eq!(pool.total_blocks(), 2);
    assert_eq!(pool.total_blocks_counter().load(Ordering::Relaxed), 2);
    assert!(pool.match_sequence_hash(10).is_none());
    assert_eq!(pool.acquire_free_block().unwrap().block_id(), 1);
}

#[test]
fn reset_is_refused_while_blocks_are_out() {
    let mut pool = create_block_pool(12);
    let out = pool.acquire_free_blocks(2).unwrap();
    assert_eq!(
        pool.reset().unwrap_err(),
        BlockPoolError::ResetError("total blocks: 12, available blocks: 10".to_string())
    );
    assert_eq!(pool.available_blocks(), 10);
    pool.return_blocks(out);
    assert!(pool.reset().is_ok());
}

#[test]
fn counters_follow_the_pool() {
    let mut pool = TestPool::default();
    let available = pool.available_blocks_counter();
    let total = pool.total_blocks_counter();
    pool.add_blocks(create_block_collection(4));
    assert_eq!(available.load(Ordering::Relaxed), 4);
    assert_eq!(total.load(Ordering::Relaxed), 4);
    let _out = pool.acquire_free_block().unwrap();
    assert_eq!(available.load(Ordering::Relaxed), 3);
    assert_eq!(total.load(Ordering::Relaxed), 4);
}

#[test]
fn priority_set_keeps_each_key_once() {
    let mut set = PrioritySet::new();
    assert!(set.insert(make_priority_key(1, 1, 1)));
    assert!(set.insert(make_priority_key(1, 1, 0)));
    assert!(!set.insert(make_priority_key(1, 1, 1)));
    assert_eq!(set.len(), 2);
    assert!(set.contains(&make_priority_key(1, 1, 0)));
    assert!(!set.contains(&make_priority_key(1, 1, 2)));
    assert!(set.remove(&make_priority_key(1, 1, 0)));
    assert!(!set.remove(&make_priority_key(1, 1, 0)));
    assert_eq!(set.pop_first().unwrap().sequence_hash(), 1);
    assert!(set.pop_first().is_none());
}

#[test]
fn acquired_blocks_are_distinct_and_come_back() {
    let mut pool = create_block_pool(3);
    pool.add_blocks_with_state(vec![registered(3, 10, 0), registered(4, 11, 0)]);
    let blocks = pool.acquire_free_blocks(4).unwrap();
    let ids: Vec<usize> = blocks.iter().map(|b| b.block_id()).collect();
    assert_eq!(ids, vec![0, 1, 2, 3]);
    assert_eq!(pool.status(), (1, 0));
    pool.return_blocks(blocks);
    assert_eq!(pool.status(), (1, 4));
    assert_eq!(pool.total_blocks(), 5);
}

#[test]
fn returned_block_is_matched_with_the_tick_of_its_return() {
    let mut pool = create_block_pool(1);
    pool.return_block(registered(5, 20, 6));
    assert_eq!(pool.return_tick(), 1);
    let matched = pool.match_sequence_hash(20).unwrap();
    assert_eq!(matched.block_id(), 5);
    assert_eq!(matched.metadata(), &BasicMetadata::new(6, 1, 0));
    assert_eq!(pool.status(), (0, 1));
}

#[test]
fn only_the_shortfall_is_evicted() {
    let mut pool = create_block_pool(2);
    pool.add_blocks_with_state(vec![registered(2, 10, 0), registered(3, 11, 1)]);
    assert_eq!(pool.acquire_free_blocks(1).unwrap().len(), 1);
    assert_eq!(pool.status(), (2, 1));
    let blocks = pool.acquire_free_blocks(2).unwrap();
    let ids: Vec<usize> = blocks.iter().map(|b| b.block_id()).collect();
    assert_eq!(ids, vec![1, 2]);
    assert_eq!(pool.status(), (1, 0));
    assert_eq!(pool.match_sequence_hash(11).unwrap().block_id(), 3);
}

#[test]
fn blocks_come_back_together_as_one_by_one() {
    let given = || vec![registered(0, 10, 1), registered(1, 10, 2), registered(2, 11, 0)];
    let mut together = TestPool::new();
    together.return_blocks(given());
    let mut each = TestPool::new();
    for block in given() {
        each.return_block(block);
    }
    assert_eq!(together.return_tick(), 3);
    assert_eq!(each.return_tick(), 3);
    assert_eq!(together.status(), (2, 1));
    assert_eq!(each.status(), (2, 1));
    for hash in [10, 11] {
        let a = together.match_sequence_hash(hash).unwrap();
        let b = each.match_sequence_hash(hash).unwrap();
        assert_eq!(a.block_id(), b.block_id());
        assert_eq!(a.metadata(), b.metadata());
    }
    let tick = together.return_tick();
    together.return_blocks(Vec::new());
    assert_eq!(together.return_tick(), tick);
    assert_eq!(together.status(), (0, 1));
}

#[test]
fn the_total_counts_added_blocks_only() {
    let mut pool = create_block_pool(2);
    pool.add_blocks_with_state(vec![registered(2, 10, 0), registered(3, 11, 0), registered(4, 11, 0)]);
    assert_eq!(pool.total_blocks(), 5);
    let matched = pool.match_sequence_hash(10).unwrap();
    let acquired = pool.acquire_free_blocks(4).unwrap();
    assert_eq!(pool.total_blocks(), 5);
    pool.return_block(matched);
    pool.return_blocks(acquired);
    assert!(pool.reset().is_ok());
    assert_eq!(pool.total_blocks(), 5);
    assert_eq!(pool.total_blocks_counter().load(Ordering::Relaxed), 5);
    pool.add_blocks(create_block_collection(3));
    assert_eq!(pool.total_blocks(), 8);
}
