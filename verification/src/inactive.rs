use std::collections::{HashMap, VecDeque};
use std::sync::atomic::{AtomicU64, Ordering};
use std::sync::Arc;

use vstd::prelude::*;

use crate::block::{Block, BlockState};
use crate::errors::BlockPoolError;
use crate::metadata::BlockMetadata;
use crate::priority::{
    law_key_order_antisymmetric, law_key_order_reflexive, law_key_order_total,
    law_key_order_transitive, PriorityKey, PrioritySet,
};
use crate::text::{reset_refusal, reset_refusal_text};
use crate::tokens::{SequenceHash, TokenBlock};

verus! {

/// What an inactive pool holds.
#[verifier::ext_equal]
#[verifier::reject_recursive_types(M)]
pub struct InactiveModel<M> {
    /// Registered blocks by their sequence hash.
    pub cached: Map<SequenceHash, Block<M>>,
    /// Blocks without content, in the order in which they are handed out.
    pub empty: Seq<Block<M>>,
    /// Number of the last acquisition or return.
    pub return_tick: u64,
    /// Number of blocks that were ever added.
    pub total_blocks: u64,
    /// Counter that publishes the total number of blocks.
    pub total_counter: Arc<AtomicU64>,
    /// Counter that publishes the number of available blocks.
    pub available_counter: Arc<AtomicU64>,
}

impl<M: BlockMetadata> InactiveModel<M> {
    /// The number of blocks in the pool.
    pub open spec fn len(self) -> nat {
        self.cached.len() + self.empty.len()
    }

    /// Cached blocks are registered under the hash by which they are found, empty
    /// blocks are reset, and the number of blocks fits the machine.
    pub open spec fn valid(self) -> bool {
        &&& self.cached.dom().finite()
        &&& forall|h: SequenceHash| #[trigger]
            self.cached.contains_key(h) ==> self.cached[h].registered_as(h)
        &&& forall|i: int| 0 <= i < self.empty.len() ==> (#[trigger] self.empty[i]).state is Reset
        &&& self.len() <= usize::MAX
    }

    /// The pool holds the block with identifier `block_id`.
    pub open spec fn holds(self, block_id: usize) -> bool {
        ||| exists|h: SequenceHash| #[trigger]
            self.cached.contains_key(h) && self.cached[h].block_id == block_id
        ||| exists|i: int| 0 <= i < self.empty.len() && #[trigger] self.empty[i].block_id == block_id
    }

    pub open spec fn next_tick(self) -> u64 {
        (self.return_tick + 1) as u64
    }

    /// The pool with `block` put where its state says: a registered block is cached,
    /// unless a block is cached under its hash already; any other block is reset and
    /// queued behind the empty ones.
    pub open spec fn insert(self, block: Block<M>) -> InactiveModel<M> {
        match block.state {
            BlockState::Registered(handle) if !self.cached.contains_key(handle.sequence_hash) => {
                InactiveModel { cached: self.cached.insert(handle.sequence_hash, block), ..self }
            },
            BlockState::Reset => InactiveModel { empty: self.empty.push(block), ..self },
            _ => InactiveModel { empty: self.empty.push(block.cleared()), ..self },
        }
    }

    /// The pool after `block` came back.
    pub open spec fn return_block(self, block: Block<M>) -> InactiveModel<M> {
        let tick = self.next_tick();
        InactiveModel { return_tick: tick, ..self }.insert(block.returned(tick))
    }

    /// The pool after `blocks` came back one after the other.
    pub open spec fn return_blocks(self, blocks: Seq<Block<M>>) -> InactiveModel<M>
        decreases blocks.len(),
    {
        if blocks.len() == 0 {
            self
        } else {
            self.return_blocks(blocks.drop_last()).return_block(blocks.last())
        }
    }

    /// The pool after `count` more blocks were counted.
    pub open spec fn count_blocks(self, count: nat) -> InactiveModel<M> {
        InactiveModel {
            total_blocks: ((self.total_blocks + count) % 0x1_0000_0000_0000_0000) as u64,
            ..self
        }
    }

    /// The pool after `blocks` were reset and added.
    pub open spec fn add_blocks(self, blocks: Seq<Block<M>>) -> InactiveModel<M> {
        InactiveModel {
            empty: self.empty + blocks.map_values(|block: Block<M>| block.cleared()),
            ..self
        }.count_blocks(blocks.len())
    }

    /// The pool after the block cached under `sequence_hash`, if there is one, was taken.
    pub open spec fn take(self, sequence_hash: SequenceHash) -> InactiveModel<M> {
        InactiveModel { cached: self.cached.remove(sequence_hash), ..self }
    }

    /// The place of the block cached under `sequence_hash` in the order of eviction.
    pub open spec fn key(self, sequence_hash: SequenceHash) -> PriorityKey<M> {
        PriorityKey { metadata: self.cached[sequence_hash].metadata, sequence_hash }
    }

    /// No cached block is to be evicted before the one under `sequence_hash`.
    pub open spec fn evicts_first(self, sequence_hash: SequenceHash) -> bool {
        &&& self.cached.contains_key(sequence_hash)
        &&& forall|other: SequenceHash| #[trigger]
            self.cached.contains_key(other) ==> self.key(sequence_hash).at_most(self.key(other))
    }

    /// The hash of the cached block that is evicted first.
    pub open spec fn victim(self) -> SequenceHash {
        choose|sequence_hash: SequenceHash| self.evicts_first(sequence_hash)
    }

    /// The block that is handed out next: the first empty one, or else the cached
    /// one that is evicted first, reset.
    pub open spec fn free_block(self) -> Option<Block<M>> {
        if self.empty.len() > 0 {
            Some(self.empty[0].acquired(self.next_tick()))
        } else if self.cached.len() > 0 {
            Some(self.cached[self.victim()].cleared().acquired(self.next_tick()))
        } else {
            None
        }
    }

    /// The pool after the next block was handed out.
    pub open spec fn acquire(self) -> InactiveModel<M> {
        if self.empty.len() > 0 {
            InactiveModel { empty: self.empty.drop_first(), return_tick: self.next_tick(), ..self }
        } else if self.cached.len() > 0 {
            InactiveModel {
                cached: self.cached.remove(self.victim()),
                return_tick: self.next_tick(),
                ..self
            }
        } else {
            self
        }
    }

    /// The pool after `count` blocks were handed out.
    pub open spec fn acquire_many(self, count: nat) -> InactiveModel<M>
        decreases count,
    {
        if count == 0 {
            self
        } else {
            self.acquire_many((count - 1) as nat).acquire()
        }
    }

    /// The next `count` blocks that are handed out.
    pub open spec fn free_blocks(self, count: nat) -> Seq<Block<M>>
        decreases count,
    {
        if count == 0 {
            Seq::empty()
        } else {
            self.free_blocks((count - 1) as nat).push(
                self.acquire_many((count - 1) as nat).free_block()->0,
            )
        }
    }

    /// `blocks` are those cached under the first hashes of `hashes`, one for each and
    /// each found once; `after` is what is left.
    pub open spec fn takes_prefix(
        self,
        hashes: Seq<SequenceHash>,
        blocks: Seq<Block<M>>,
        after: InactiveModel<M>,
    ) -> bool {
        let found = hashes.take(blocks.len() as int);
        &&& blocks.len() <= hashes.len()
        &&& found.no_duplicates()
        &&& forall|i: int|
            #![trigger blocks[i]]
            #![trigger hashes[i]]
            0 <= i < blocks.len() ==> self.cached.contains_key(hashes[i]) && blocks[i]
                == self.cached[hashes[i]]
        &&& after == InactiveModel { cached: self.cached.remove_keys(found.to_set()), ..self }
    }

    /// `blocks` are those cached under the longest prefix of `hashes` of which every
    /// hash finds a block, where a block is found once; `after` is what is left.
    pub open spec fn matches_prefix(
        self,
        hashes: Seq<SequenceHash>,
        blocks: Seq<Block<M>>,
        after: InactiveModel<M>,
    ) -> bool {
        &&& self.takes_prefix(hashes, blocks, after)
        &&& blocks.len() < hashes.len() ==> !after.cached.contains_key(hashes[blocks.len() as int])
    }

    /// Taking one more block extends the prefix that was taken.
    proof fn lemma_take_extends_prefix(
        self,
        hashes: Seq<SequenceHash>,
        blocks: Seq<Block<M>>,
        after: InactiveModel<M>,
    )
        requires
            self.takes_prefix(hashes, blocks, after),
            blocks.len() < hashes.len(),
            after.cached.contains_key(hashes[blocks.len() as int]),
        ensures
            ({
                let next = hashes[blocks.len() as int];
                self.takes_prefix(hashes, blocks.push(after.cached[next]), after.take(next))
            }),
    {
        let count = blocks.len() as int;
        let next = hashes[count];
        let found = hashes.take(count);
        let more = hashes.take(count + 1);
        assert(more =~= found.push(next));
        assert(!found.contains(next));
        assert(more.to_set() =~= found.to_set().insert(next)) by {
            assert forall|h: SequenceHash| found.to_set().insert(next).contains(h) implies more.contains(
                h,
            ) by {
                if h == next {
                    assert(more[count] == next);
                } else {
                    let i = choose|i: int| 0 <= i < found.len() && found[i] == h;
                    assert(more[i] == h);
                }
            }
        }
        assert(self.cached.remove_keys(more.to_set()) =~= self.cached.remove_keys(
            found.to_set(),
        ).remove(next));
    }

    /// Only one cached block is evicted first.
    proof fn lemma_one_victim(self, a: SequenceHash, b: SequenceHash)
        requires
            self.evicts_first(a),
            self.evicts_first(b),
        ensures
            a == b,
    {
        law_key_order_antisymmetric(self.key(a), self.key(b));
    }

    /// Among cached blocks there is one that goes before all others.
    proof fn lemma_least(self, hashes: Set<SequenceHash>) -> (least: SequenceHash)
        requires
            hashes.finite(),
            hashes.len() > 0,
        ensures
            hashes.contains(least),
            forall|other: SequenceHash| #[trigger]
                hashes.contains(other) ==> self.key(least).at_most(self.key(other)),
        decreases hashes.len(),
    {
        let some = hashes.choose();
        let rest = hashes.remove(some);
        law_key_order_reflexive(self.key(some));
        if rest.len() == 0 {
            assert forall|other: SequenceHash| #[trigger] hashes.contains(other) implies self.key(
                some,
            ).at_most(self.key(other)) by {
                assert(!rest.contains(other));
            }
            some
        } else {
            let least = self.lemma_least(rest);
            law_key_order_total(self.key(some), self.key(least));
            if self.key(some).at_most(self.key(least)) {
                assert forall|other: SequenceHash| #[trigger]
                    hashes.contains(other) implies self.key(some).at_most(self.key(other)) by {
                    if other != some {
                        assert(rest.contains(other));
                        law_key_order_transitive(
                            self.key(some),
                            self.key(least),
                            self.key(other),
                        );
                    }
                }
                some
            } else {
                assert forall|other: SequenceHash| #[trigger]
                    hashes.contains(other) implies self.key(least).at_most(self.key(other)) by {
                    if other != some {
                        assert(rest.contains(other));
                    }
                }
                least
            }
        }
    }

    /// Where blocks are cached, the victim is one of them and no cached block is to be
    /// evicted before it.
    pub proof fn law_victim_evicts_first(self)
        requires
            self.valid(),
            self.cached.len() > 0,
        ensures
            self.evicts_first(self.victim()),
    {
        let least = self.lemma_least(self.cached.dom());
        assert forall|other: SequenceHash| #[trigger]
            self.cached.contains_key(other) implies self.key(least).at_most(self.key(other)) by {
            assert(self.cached.dom().contains(other));
        }
        assert(self.evicts_first(least));
    }

    proof fn lemma_free_blocks_len(self, count: nat)
        ensures
            self.free_blocks(count).len() == count,
        decreases count,
    {
        if count > 0 {
            self.lemma_free_blocks_len((count - 1) as nat);
        }
    }
}

/// Adds to a published counter.
fn publish_increase(counter: &AtomicU64, by: u64) {
    let _ = counter.fetch_add(by, Ordering::Relaxed);
}

/// Subtracts from a published counter.
fn publish_decrease(counter: &AtomicU64, by: u64) {
    let _ = counter.fetch_sub(by, Ordering::Relaxed);
}

/// Blocks that no sequence uses.
///
/// A block that was registered stays cached under its sequence hash until it is
/// matched again, or evicted to serve a request for a free block.
#[verifier::reject_recursive_types(M)]
pub struct InactiveBlockPool<M> {
    lookup_map: HashMap<SequenceHash, Block<M>>,
    priority_set: PrioritySet<M>,
    uninitialized_set: VecDeque<Block<M>>,
    return_tick: u64,
    total_blocks: u64,
    available_blocks: u64,
    total_counter: Arc<AtomicU64>,
    available_counter: Arc<AtomicU64>,
}

impl<M> View for InactiveBlockPool<M> {
    type V = InactiveModel<M>;

    closed spec fn view(&self) -> InactiveModel<M> {
        InactiveModel {
            cached: self.lookup_map@,
            empty: self.uninitialized_set@,
            return_tick: self.return_tick,
            total_blocks: self.total_blocks,
            total_counter: self.total_counter,
            available_counter: self.available_counter,
        }
    }
}

impl<M: BlockMetadata> Default for InactiveBlockPool<M> {
    fn default() -> (pool: InactiveBlockPool<M>)
        ensures
            pool.wf(),
            pool@.cached == Map::<SequenceHash, Block<M>>::empty(),
            pool@.empty == Seq::<Block<M>>::empty(),
            pool@.return_tick == 0,
            pool@.total_blocks == 0,
    {
        Self::new()
    }
}

impl<M: BlockMetadata> InactiveBlockPool<M> {
    /// The priority set holds one key for each cached block, and no other.
    spec fn keys_agree(&self) -> bool {
        &&& self.priority_set.wf()
        &&& self.priority_set@.finite()
        &&& self.priority_set@.len() == self.lookup_map@.len()
        &&& forall|key: PriorityKey<M>| #[trigger]
            self.priority_set@.contains(key) <==> self.lookup_map@.contains_key(key.sequence_hash)
                && self.lookup_map@[key.sequence_hash].metadata == key.metadata
    }

    pub closed spec fn wf(&self) -> bool {
        &&& self.keys_agree()
        &&& self@.valid()
        &&& self.available_blocks == self@.len()
    }

    /// In a well-formed pool every cached block is registered under the hash by which it
    /// is found, and every empty block is reset.
    pub proof fn law_pool_is_valid(&self)
        requires
            self.wf(),
        ensures
            self@.valid(),
    {
    }

    /// The keys by which the pool picks the cached block to evict.
    pub closed spec fn keys(&self) -> Set<PriorityKey<M>> {
        self.priority_set@
    }

    /// In a well-formed pool every key is that of a cached block and every cached block has
    /// its key, so that a block is there whenever a key is picked.
    pub proof fn law_every_key_has_its_block(&self)
        requires
            self.wf(),
        ensures
            self.keys().len() == self@.cached.len(),
            forall|key: PriorityKey<M>| #[trigger]
                self.keys().contains(key) <==> self@.cached.contains_key(key.sequence_hash) && key
                    == self@.key(key.sequence_hash),
    {
    }

    /// Creates an empty pool.
    pub fn new() -> (pool: InactiveBlockPool<M>)
        ensures
            pool.wf(),
            pool@.cached == Map::<SequenceHash, Block<M>>::empty(),
            pool@.empty == Seq::<Block<M>>::empty(),
            pool@.return_tick == 0,
            pool@.total_blocks == 0,
    {
        let pool = InactiveBlockPool {
            lookup_map: HashMap::new(),
            priority_set: PrioritySet::new(),
            uninitialized_set: VecDeque::new(),
            return_tick: 0,
            total_blocks: 0,
            available_blocks: 0,
            total_counter: Arc::new(AtomicU64::new(0)),
            available_counter: Arc::new(AtomicU64::new(0)),
        };
        pool
    }

    /// Puts a registered block under its sequence hash.
    ///
    /// Where a block is cached under that hash already, the new one is reset and
    /// queued with the empty blocks.
    fn insert_with_sequence_hash(&mut self, block: Block<M>, sequence_hash: SequenceHash)
        requires
            old(self).keys_agree(),
            old(self)@.valid(),
            old(self)@.len() < usize::MAX,
            block.registered_as(sequence_hash),
        ensures
            final(self).keys_agree(),
            final(self)@ == old(self)@.insert(block),
            final(self)@.valid(),
            final(self)@.len() == old(self)@.len() + 1,
            final(self).available_blocks == old(self).available_blocks,
    {
        if self.lookup_map.contains_key(&sequence_hash) {
            let mut block = block;
            block.reset();
            self.uninitialized_set.push_back(block);
        } else {
            let key = PriorityKey::new(block.metadata().duplicate(), sequence_hash);
            self.priority_set.insert(key);
            self.lookup_map.insert(sequence_hash, block);
        }
    }

    /// Puts a block where its state says.
    fn insert(&mut self, block: Block<M>)
        requires
            old(self).wf(),
            old(self)@.len() < usize::MAX,
        ensures
            final(self).wf(),
            final(self)@ == old(self)@.insert(block),
            final(self)@.len() == old(self)@.len() + 1,
    {
        match *block.state() {
            BlockState::Reset => {
                self.uninitialized_set.push_back(block);
            },
            BlockState::Partial | BlockState::Complete(_) => {
                let mut block = block;
                block.reset();
                self.uninitialized_set.push_back(block);
            },
            BlockState::Registered(handle) => {
                self.insert_with_sequence_hash(block, handle.sequence_hash);
            },
        }
        self.available_blocks = self.available_blocks + 1;
        publish_increase(&self.available_counter, 1);
    }

    /// Adds blocks to the pool, resetting each of them.
    pub fn add_blocks(&mut self, blocks: Vec<Block<M>>)
        requires
            old(self).wf(),
            old(self)@.len() + blocks@.len() <= usize::MAX,
        ensures
            final(self).wf(),
            final(self)@ == old(self)@.add_blocks(blocks@),
    {
        let ghost before = self@;
        let count = blocks.len();
        let ghost added = blocks@.map_values(|block: Block<M>| block.cleared());
        for block in iter: blocks
            invariant
                self.wf(),
                iter.seq() == blocks@,
                before.len() + blocks@.len() <= usize::MAX,
                self@.len() == before.len() + iter.index(),
                added == blocks@.map_values(|block: Block<M>| block.cleared()),
                self@ == (InactiveModel {
                    empty: before.empty + added.take(iter.index()),
                    ..before
                }),
        {
            let mut block = block;
            block.reset();
            self.insert(block);
            assert(added.take(iter.index() + 1) =~= added.take(iter.index()).push(block));
            assert(self@.empty =~= before.empty + added.take(iter.index() + 1));
        }
        assert(added.take(blocks@.len() as int) =~= added);
        self.count_blocks(count);
    }

    /// Counts blocks that join the pool.
    fn count_blocks(&mut self, count: usize)
        requires
            old(self).wf(),
        ensures
            final(self).wf(),
            final(self)@ == old(self)@.count_blocks(count as nat),
    {
        self.total_blocks = self.total_blocks.wrapping_add(count as u64);
        publish_increase(&self.total_counter, count as u64);
    }

    /// Adds blocks to the pool as they are, without resetting them.
    pub fn add_blocks_with_state(&mut self, blocks: Vec<Block<M>>)
        requires
            old(self).wf(),
            old(self)@.len() + blocks@.len() <= usize::MAX,
            old(self)@.return_tick + blocks@.len() <= u64::MAX,
        ensures
            final(self).wf(),
            final(self)@ == old(self)@.count_blocks(blocks@.len()).return_blocks(blocks@),
    {
        self.count_blocks(blocks.len());
        self.return_blocks(blocks);
    }

    /// Takes back a block.
    pub fn return_block(&mut self, block: Block<M>)
        requires
            old(self).wf(),
            old(self)@.len() < usize::MAX,
            old(self)@.return_tick < u64::MAX,
        ensures
            final(self).wf(),
            final(self)@ == old(self)@.return_block(block),
            final(self)@.len() == old(self)@.len() + 1,
            final(self)@.return_tick == old(self)@.return_tick + 1,
    {
        self.return_tick = self.return_tick + 1;
        let mut block = block;
        block.metadata_on_returned(self.return_tick);
        self.insert(block);
    }

    /// Takes back blocks in the order in which they are given.
    pub fn return_blocks(&mut self, blocks: Vec<Block<M>>)
        requires
            old(self).wf(),
            old(self)@.len() + blocks@.len() <= usize::MAX,
            old(self)@.return_tick + blocks@.len() <= u64::MAX,
        ensures
            final(self).wf(),
            final(self)@ == old(self)@.return_blocks(blocks@),
            final(self)@.len() == old(self)@.len() + blocks@.len(),
            final(self)@.return_tick == old(self)@.return_tick + blocks@.len(),
    {
        let ghost before = self@;
        let ghost all = blocks@;
        for block in iter: blocks
            invariant
                self.wf(),
                iter.seq() == all,
                before.len() + all.len() <= usize::MAX,
                before.return_tick + all.len() <= u64::MAX,
                self@.len() == before.len() + iter.index(),
                self@.return_tick == before.return_tick + iter.index(),
                self@ == before.return_blocks(all.take(iter.index())),
        {
            assert(all.take(iter.index() + 1).drop_last() =~= all.take(iter.index()));
            assert(all.take(iter.index() + 1).last() == block);
            self.return_block(block);
        }
        assert(all.take(all.len() as int) =~= all);
    }

    /// Takes out the block cached under `sequence_hash`.
    fn take_with_sequence_hash(&mut self, sequence_hash: SequenceHash) -> (block: Option<Block<M>>)
        requires
            old(self).wf(),
        ensures
            final(self).wf(),
            final(self)@ == old(self)@.take(sequence_hash),
            match block {
                Some(block) => old(self)@.cached.contains_key(sequence_hash) && block == old(
                    self,
                )@.cached[sequence_hash],
                None => !old(self)@.cached.contains_key(sequence_hash),
            },
            final(self)@.len() == old(self)@.len() - (if block is Some {
                1int
            } else {
                0int
            }),
    {
        match self.lookup_map.remove(&sequence_hash) {
            Some(block) => {
                let key = PriorityKey::new(block.metadata().duplicate(), sequence_hash);
                self.priority_set.remove(&key);
                self.available_blocks = self.available_blocks - 1;
                publish_decrease(&self.available_counter, 1);
                Some(block)
            },
            None => {
                assert(self@ =~= old(self)@);
                None
            },
        }
    }

    /// Takes out the block cached under `sequence_hash`, if there is one.
    pub fn match_sequence_hash(&mut self, sequence_hash: SequenceHash) -> (block: Option<Block<M>>)
        requires
            old(self).wf(),
        ensures
            final(self).wf(),
            final(self)@ == old(self)@.take(sequence_hash),
            match block {
                Some(block) => old(self)@.cached.contains_key(sequence_hash) && block == old(
                    self,
                )@.cached[sequence_hash],
                None => !old(self)@.cached.contains_key(sequence_hash),
            },
            final(self)@.len() == old(self)@.len() - (if block is Some {
                1int
            } else {
                0int
            }),
    {
        self.take_with_sequence_hash(sequence_hash)
    }

    /// Takes out the blocks cached under `sequence_hashes`, up to the first hash that
    /// finds none.
    pub fn match_sequence_hashes(&mut self, sequence_hashes: Vec<SequenceHash>) -> (blocks: Vec<
        Block<M>,
    >)
        requires
            old(self).wf(),
        ensures
            final(self).wf(),
            old(self)@.matches_prefix(sequence_hashes@, blocks@, final(self)@),
    {
        let ghost before = self@;
        let mut matched_blocks: Vec<Block<M>> = Vec::with_capacity(sequence_hashes.len());
        let mut i: usize = 0;
        assert(sequence_hashes@.take(0) =~= Seq::<SequenceHash>::empty());
        assert(before.cached.remove_keys(Set::<SequenceHash>::empty()) =~= before.cached);
        assert(sequence_hashes@.take(0).to_set() =~= Set::<SequenceHash>::empty());
        while i < sequence_hashes.len()
            invariant
                self.wf(),
                i <= sequence_hashes@.len(),
                matched_blocks@.len() == i,
                before == old(self)@,
                before.takes_prefix(sequence_hashes@, matched_blocks@, self@),
            decreases sequence_hashes@.len() - i,
        {
            let ghost held = self@;
            let ghost taken = matched_blocks@;
            match self.take_with_sequence_hash(sequence_hashes[i]) {
                Some(block) => {
                    proof {
                        before.lemma_take_extends_prefix(sequence_hashes@, taken, held);
                    }
                    matched_blocks.push(block);
                },
                None => {
                    assert(self@ =~= held);
                    return matched_blocks;
                },
            }
            i = i + 1;
        }
        matched_blocks
    }

    /// Takes out the blocks cached under the hashes of `token_blocks`, up to the first
    /// hash that finds none.
    pub fn match_token_blocks(&mut self, token_blocks: &[TokenBlock]) -> (blocks: Vec<Block<M>>)
        requires
            old(self).wf(),
        ensures
            final(self).wf(),
            old(self)@.matches_prefix(
                token_blocks@.map_values(|token_block: TokenBlock| token_block.sequence_hash),
                blocks@,
                final(self)@,
            ),
    {
        let ghost before = self@;
        let ghost hashes = token_blocks@.map_values(
            |token_block: TokenBlock| token_block.sequence_hash,
        );
        let mut matched_blocks: Vec<Block<M>> = Vec::with_capacity(token_blocks.len());
        let mut i: usize = 0;
        assert(hashes.take(0) =~= Seq::<SequenceHash>::empty());
        assert(before.cached.remove_keys(Set::<SequenceHash>::empty()) =~= before.cached);
        assert(hashes.take(0).to_set() =~= Set::<SequenceHash>::empty());
        while i < token_blocks.len()
            invariant
                self.wf(),
                i <= token_blocks@.len(),
                matched_blocks@.len() == i,
                before == old(self)@,
                hashes == token_blocks@.map_values(
                    |token_block: TokenBlock| token_block.sequence_hash,
                ),
                before.takes_prefix(hashes, matched_blocks@, self@),
            decreases token_blocks@.len() - i,
        {
            let ghost held = self@;
            let ghost taken = matched_blocks@;
            match self.take_with_sequence_hash(token_blocks[i].sequence_hash()) {
                Some(block) => {
                    proof {
                        before.lemma_take_extends_prefix(hashes, taken, held);
                    }
                    matched_blocks.push(block);
                },
                None => {
                    assert(self@ =~= held);
                    return matched_blocks;
                },
            }
            i = i + 1;
        }
        matched_blocks
    }

    /// Hands out a block: the first of the empty ones, or else the cached one that is
    /// evicted first, which is reset.
    pub fn acquire_free_block(&mut self) -> (block: Option<Block<M>>)
        requires
            old(self).wf(),
            old(self)@.len() > 0 ==> old(self)@.return_tick < u64::MAX,
        ensures
            final(self).wf(),
            block == old(self)@.free_block(),
            final(self)@ == old(self)@.acquire(),
            block is Some <==> old(self)@.len() > 0,
            block is Some ==> final(self)@.len() == old(self)@.len() - 1,
            block is Some ==> final(self)@.return_tick == old(self)@.return_tick + 1,
    {
        if let Some(block) = self.uninitialized_set.pop_front() {
            let mut block = block;
            self.return_tick = self.return_tick + 1;
            block.metadata_on_acquired(self.return_tick);
            self.available_blocks = self.available_blocks - 1;
            publish_decrease(&self.available_counter, 1);
            return Some(block);
        }
        if let Some(key) = self.priority_set.pop_first() {
            let sequence_hash = key.sequence_hash();
            proof {
                let before = old(self)@;
                assert forall|other: SequenceHash| #[trigger]
                    before.cached.contains_key(other) implies before.key(sequence_hash).at_most(
                    before.key(other),
                ) by {
                    assert(old(self).priority_set@.contains(before.key(other)));
                }
                assert(before.evicts_first(sequence_hash));
                before.lemma_one_victim(sequence_hash, before.victim());
            }
            match self.lookup_map.remove(&sequence_hash) {
                Some(block) => {
                    let mut block = block;
                    block.reset();
                    self.return_tick = self.return_tick + 1;
                    block.metadata_on_acquired(self.return_tick);
                    self.available_blocks = self.available_blocks - 1;
                    publish_decrease(&self.available_counter, 1);
                    Some(block)
                },
                None => {
                    assert(false);
                    None
                },
            }
        } else {
            assert(self.lookup_map@.len() == 0);
            None
        }
    }

    /// Hands out `count` blocks, or none where fewer are available.
    pub fn acquire_free_blocks(&mut self, count: usize) -> (res: Result<
        Vec<Block<M>>,
        BlockPoolError,
    >)
        requires
            old(self).wf(),
            count <= old(self)@.len() ==> old(self)@.return_tick + count <= u64::MAX,
        ensures
            final(self).wf(),
            if count <= old(self)@.len() {
                &&& res matches Ok(blocks) && blocks@ == old(self)@.free_blocks(count as nat)
                &&& final(self)@ == old(self)@.acquire_many(count as nat)
                &&& final(self)@.len() == old(self)@.len() - count
                &&& final(self)@.return_tick == old(self)@.return_tick + count
            } else {
                &&& res matches Err(BlockPoolError::NotEnoughBlocksAvailable(requested, available))
                    && requested == count && available == old(self)@.len()
                &&& final(self)@ == old(self)@
            },
    {
        let ghost before = self@;
        let mut blocks: Vec<Block<M>> = Vec::new();
        if count == 0 {
            assert(blocks@ =~= before.free_blocks(0));
            return Ok(blocks);
        }
        let available_now: usize = self.uninitialized_set.len() + self.lookup_map.len();
        if count > available_now {
            return Err(BlockPoolError::NotEnoughBlocksAvailable(count, available_now));
        }
        let mut acquired: usize = 0;
        while acquired < count
            invariant
                self.wf(),
                before == old(self)@,
                acquired <= count <= before.len(),
                before.return_tick + count <= u64::MAX,
                self@.len() == before.len() - acquired,
                self@.return_tick == before.return_tick + acquired,
                self@ == before.acquire_many(acquired as nat),
                blocks@ == before.free_blocks(acquired as nat),
            decreases count - acquired,
        {
            match self.acquire_free_block() {
                Some(block) => {
                    blocks.push(block);
                },
                None => {
                    assert(false);
                },
            }
            acquired = acquired + 1;
        }
        Ok(blocks)
    }

    /// Resets every block of the pool, provided that all of them are here.
    pub fn reset(&mut self) -> (res: Result<(), BlockPoolError>)
        requires
            old(self).wf(),
            old(self)@.total_blocks == old(self)@.len() ==> old(self)@.return_tick + 2 * old(
                self,
            )@.len() <= u64::MAX,
        ensures
            final(self).wf(),
            if old(self)@.total_blocks == old(self)@.len() {
                let count = old(self)@.len();
                &&& res is Ok
                &&& final(self)@ == old(self)@.acquire_many(count).return_blocks(
                    old(self)@.free_blocks(count),
                )
            } else {
                &&& res matches Err(BlockPoolError::ResetError(text)) && text@ == reset_refusal(
                    old(self)@.total_blocks as nat,
                    old(self)@.len(),
                )
                &&& final(self)@ == old(self)@
            },
    {
        if self.total_blocks != self.available_blocks {
            return Err(
                BlockPoolError::ResetError(
                    reset_refusal_text(self.total_blocks, self.available_blocks),
                ),
            );
        }
        let ghost before = self@;
        let blocks = match self.acquire_free_blocks(self.total_blocks as usize) {
            Ok(blocks) => blocks,
            Err(error) => {
                return Err(error);
            },
        };
        proof {
            before.lemma_free_blocks_len(before.len());
        }
        self.return_blocks(blocks);
        Ok(())
    }

    /// The number of cached blocks and the number of empty ones.
    pub fn status(&self) -> (status: (usize, usize))
        requires
            self.wf(),
        ensures
            status.0 == self@.cached.len(),
            status.1 == self@.empty.len(),
    {
        (self.priority_set.len(), self.uninitialized_set.len())
    }

    /// The number of blocks in the pool.
    pub fn available_blocks(&self) -> (available: u64)
        requires
            self.wf(),
        ensures
            available == self@.len(),
    {
        self.uninitialized_set.len() as u64 + self.lookup_map.len() as u64
    }

    /// The number of blocks that were ever added.
    pub fn total_blocks(&self) -> (total: u64)
        ensures
            total == self@.total_blocks,
    {
        self.total_blocks
    }

    /// The number of the last acquisition or return.
    pub fn return_tick(&self) -> (tick: u64)
        ensures
            tick == self@.return_tick,
    {
        self.return_tick
    }

    /// The counter on which the pool publishes the number of available blocks.
    ///
    /// What the counter reads at a given moment is not part of the contract, since
    /// every holder of it may write to it.
    pub fn available_blocks_counter(&self) -> (counter: Arc<AtomicU64>)
        ensures
            counter == self@.available_counter,
    {
        self.available_counter.clone()
    }

    /// The counter on which the pool publishes the total number of blocks.
    ///
    /// What the counter reads at a given moment is not part of the contract, since
    /// every holder of it may write to it.
    pub fn total_blocks_counter(&self) -> (counter: Arc<AtomicU64>)
        ensures
            counter == self@.total_counter,
    {
        self.total_counter.clone()
    }
}

/// What is said of an inactive pool is said of its fields, and in a well-formed one the counted
/// number of available blocks is the number of blocks.
proof fn law_inactive_pool_is_what_its_fields_hold<M: BlockMetadata>(pool: InactiveBlockPool<M>)
    ensures
        pool@.cached == pool.lookup_map@,
        pool@.empty == pool.uninitialized_set@,
        pool@.return_tick == pool.return_tick,
        pool@.total_blocks == pool.total_blocks,
        pool@.total_counter == pool.total_counter,
        pool@.available_counter == pool.available_counter,
        pool.keys() == pool.priority_set@,
        pool.wf() ==> pool.available_blocks == pool.lookup_map@.len()
            + pool.uninitialized_set@.len(),
{
}

} // verus!
