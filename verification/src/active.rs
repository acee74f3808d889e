use std::collections::HashMap;
use std::sync::Arc;

use vstd::prelude::*;

use crate::block::{Block, ImmutableBlock, MutableBlock};
use crate::errors::BlockPoolError;
use crate::metadata::BlockMetadata;
use crate::tokens::SequenceHash;
use crate::weak::WeakBlock;

verus! {

/// Looking up `sequence_hash` gives `found` and leaves `after`: a block that is alive is
/// found as a primary handle, and a reference that is not alive is dropped.
pub open spec fn looks_up<M>(
    before: Map<SequenceHash, WeakBlock<M>>,
    sequence_hash: SequenceHash,
    found: Option<ImmutableBlock<M>>,
    after: Map<SequenceHash, WeakBlock<M>>,
) -> bool {
    match found {
        Some(handle) => {
            &&& before.contains_key(sequence_hash)
            &&& before[sequence_hash].live()
            &&& handle.block == before[sequence_hash].target()
            &&& handle.duplicate is None
            &&& after == before
        },
        None => {
            &&& before.contains_key(sequence_hash) ==> before[sequence_hash].answers(None)
            &&& after == before.remove(sequence_hash)
        },
    }
}

/// Looking up the block that precedes `block`, if one does, gives `parent` and leaves `after`.
pub open spec fn looks_up_parent<M>(
    before: Map<SequenceHash, WeakBlock<M>>,
    block: Block<M>,
    parent: Option<ImmutableBlock<M>>,
    after: Map<SequenceHash, WeakBlock<M>>,
) -> bool {
    match block.parent_hash() {
        Some(parent_hash) => looks_up(before, parent_hash, parent, after),
        None => parent is None && after == before,
    }
}

/// `shared` is the handle `block`, tied to `parent` where one was found.
pub open spec fn adopts<M>(
    block: MutableBlock<M>,
    parent: Option<ImmutableBlock<M>>,
    shared: MutableBlock<M>,
) -> bool {
    &&& shared@ == block@
    &&& shared.channel() == block.channel()
    &&& shared.parent() == (match parent {
        Some(handle) => Some(handle.block),
        None => block.parent(),
    })
}

/// Entering `shared` under `sequence_hash` gives `handle` and leaves `after`: the block that
/// is alive under the hash is given, or else `shared` itself, which then stands there.
pub open spec fn admits<M>(
    before: Map<SequenceHash, WeakBlock<M>>,
    sequence_hash: SequenceHash,
    shared: Arc<MutableBlock<M>>,
    handle: ImmutableBlock<M>,
    after: Map<SequenceHash, WeakBlock<M>>,
) -> bool {
    &&& handle.duplicate is None
    &&& {
        ||| {
            &&& before.contains_key(sequence_hash)
            &&& before[sequence_hash].live()
            &&& handle.block == before[sequence_hash].target()
            &&& after == before
        }
        ||| {
            &&& before.contains_key(sequence_hash) ==> before[sequence_hash].answers(None)
            &&& handle.block == shared
            &&& after.contains_key(sequence_hash)
            &&& after[sequence_hash].target() == shared
            &&& after == before.insert(sequence_hash, after[sequence_hash])
        }
    }
}

/// Registering `block`, which is registered under `sequence_hash`, gives `handle` and
/// leaves `after`.
pub open spec fn registers<M>(
    before: Map<SequenceHash, WeakBlock<M>>,
    block: MutableBlock<M>,
    sequence_hash: SequenceHash,
    handle: ImmutableBlock<M>,
    after: Map<SequenceHash, WeakBlock<M>>,
) -> bool {
    exists|
        parent: Option<ImmutableBlock<M>>,
        between: Map<SequenceHash, WeakBlock<M>>,
        shared: Arc<MutableBlock<M>>,
    |
        {
            &&& #[trigger] looks_up_parent(before, block@->0, parent, between)
            &&& adopts(block, parent, *shared)
            &&& #[trigger] admits(between, sequence_hash, shared, handle, after)
        }
}

/// Giving up `block` leaves the block `left` and the references `after`: while others
/// hold a block of the same content the given one is reset, and otherwise the stale
/// reference is dropped.
pub open spec fn gives_up<M: BlockMetadata>(
    before: Map<SequenceHash, WeakBlock<M>>,
    block: Block<M>,
    left: Block<M>,
    after: Map<SequenceHash, WeakBlock<M>>,
) -> bool {
    match block.hash() {
        Some(sequence_hash) if before.contains_key(sequence_hash) => {
            ||| {
                &&& before[sequence_hash].live()
                &&& left == block.cleared()
                &&& after == before
            }
            ||| {
                &&& before[sequence_hash].answers(None)
                &&& left == block
                &&& after == before.remove(sequence_hash)
            }
        },
        _ => left == block && after == before,
    }
}

/// Each reference refers to a block that is registered under the hash at which the
/// reference stands.
pub open spec fn well_keyed<M>(references: Map<SequenceHash, WeakBlock<M>>) -> bool {
    forall|sequence_hash: SequenceHash| #[trigger]
        references.contains_key(sequence_hash)
            ==> references[sequence_hash].target().registered_as(sequence_hash)
}

/// A block that is found under a hash is registered under that hash, and the lookup
/// leaves the other references as they were.
pub proof fn law_lookup_finds_hash<M>(
    before: Map<SequenceHash, WeakBlock<M>>,
    sequence_hash: SequenceHash,
    found: Option<ImmutableBlock<M>>,
    after: Map<SequenceHash, WeakBlock<M>>,
)
    requires
        well_keyed(before),
        looks_up(before, sequence_hash, found, after),
    ensures
        well_keyed(after),
        found matches Some(handle) ==> handle.block.registered_as(sequence_hash),
        forall|other: SequenceHash|
            #![trigger after.contains_key(other)]
            other != sequence_hash ==> after.contains_key(other) == before.contains_key(other)
                && after[other] == before[other],
{
}

/// The handle that registering a block gives is registered under the hash of the block,
/// whichever of two blocks of the same content it stands for.
pub proof fn law_register_keeps_hash<M>(
    before: Map<SequenceHash, WeakBlock<M>>,
    block: MutableBlock<M>,
    sequence_hash: SequenceHash,
    handle: ImmutableBlock<M>,
    after: Map<SequenceHash, WeakBlock<M>>,
)
    requires
        well_keyed(before),
        block.registered_as(sequence_hash),
        registers(before, block, sequence_hash, handle, after),
    ensures
        well_keyed(after),
        handle.block.registered_as(sequence_hash),
        handle.duplicate is None,
{
    let (parent, between, shared) = choose|
        parent: Option<ImmutableBlock<M>>,
        between: Map<SequenceHash, WeakBlock<M>>,
        shared: Arc<MutableBlock<M>>,
    |
        {
            &&& #[trigger] looks_up_parent(before, block@->0, parent, between)
            &&& adopts(block, parent, *shared)
            &&& #[trigger] admits(between, sequence_hash, shared, handle, after)
        };
    if let Some(parent_hash) = (block@->0).parent_hash() {
        law_lookup_finds_hash(before, parent_hash, parent, between);
    }
    assert(well_keyed(between));
    assert(shared.registered_as(sequence_hash));
}

/// A block that was shared under a hash is the one that is found there, for as long as its
/// reference can be upgraded.
pub proof fn law_shared_block_is_found_again<M>(
    before: Map<SequenceHash, WeakBlock<M>>,
    block: MutableBlock<M>,
    sequence_hash: SequenceHash,
    handle: ImmutableBlock<M>,
    after: Map<SequenceHash, WeakBlock<M>>,
    found: Option<ImmutableBlock<M>>,
    later: Map<SequenceHash, WeakBlock<M>>,
)
    requires
        block.registered_as(sequence_hash),
        registers(before, block, sequence_hash, handle, after),
        looks_up(after, sequence_hash, found, later),
    ensures
        after.contains_key(sequence_hash),
        after[sequence_hash].target() == handle.block,
        match found {
            Some(again) => again.block == handle.block,
            None => after[sequence_hash].answers(None),
        },
{
}

/// A block that is shared under a hash where another is found alive gives way to that one,
/// and the reference stays; it only takes the place of a reference that was found dead.
pub proof fn law_second_block_gives_way<M>(
    before: Map<SequenceHash, WeakBlock<M>>,
    block: MutableBlock<M>,
    sequence_hash: SequenceHash,
    handle: ImmutableBlock<M>,
    after: Map<SequenceHash, WeakBlock<M>>,
)
    requires
        before.contains_key(sequence_hash),
        registers(before, block, sequence_hash, handle, after),
    ensures
        after.contains_key(sequence_hash),
        after[sequence_hash].target() == handle.block,
        ({
            ||| {
                &&& handle.block == before[sequence_hash].target()
                &&& after[sequence_hash] == before[sequence_hash]
            }
            ||| {
                &&& before[sequence_hash].answers(None)
                &&& handle.block@ == block@
            }
        }),
{
}

/// A block that is shared holds the one that precedes it, where that one is found alive, and
/// the reference to the predecessor stays: the predecessor lives for as long as the block.
/// Where it is not found the block is shared all the same, and holds what it held before. In
/// place of the block stands the one that was found alive under its own hash, if there is one.
pub proof fn law_child_keeps_parent_alive<M>(
    before: Map<SequenceHash, WeakBlock<M>>,
    block: MutableBlock<M>,
    sequence_hash: SequenceHash,
    handle: ImmutableBlock<M>,
    after: Map<SequenceHash, WeakBlock<M>>,
    parent_hash: SequenceHash,
)
    requires
        registers(before, block, sequence_hash, handle, after),
        (block@->0).parent_hash() == Some(parent_hash),
    ensures
        after.contains_key(sequence_hash),
        after[sequence_hash].target() == handle.block,
        ({
            ||| {
                &&& before.contains_key(sequence_hash)
                &&& before[sequence_hash].live()
                &&& handle.block == before[sequence_hash].target()
            }
            ||| {
                &&& handle.block@ == block@
                &&& before.contains_key(parent_hash)
                &&& before[parent_hash].live()
                &&& handle.block.parent() == Some(before[parent_hash].target())
                &&& parent_hash != sequence_hash ==> after.contains_key(parent_hash)
                    && after[parent_hash] == before[parent_hash]
            }
            ||| {
                &&& handle.block@ == block@
                &&& before.contains_key(parent_hash) ==> before[parent_hash].answers(None)
                &&& handle.block.parent() == block.parent()
            }
        }),
{
}

/// A lookup of the predecessor after a block was shared finds the very block that the shared
/// one holds, unless the predecessor was found dead before or now, or the block gave way to
/// another of its hash.
pub proof fn law_parent_is_found_beside_its_child<M>(
    before: Map<SequenceHash, WeakBlock<M>>,
    block: MutableBlock<M>,
    sequence_hash: SequenceHash,
    handle: ImmutableBlock<M>,
    after: Map<SequenceHash, WeakBlock<M>>,
    parent_hash: SequenceHash,
    found: Option<ImmutableBlock<M>>,
    later: Map<SequenceHash, WeakBlock<M>>,
)
    requires
        registers(before, block, sequence_hash, handle, after),
        (block@->0).parent_hash() == Some(parent_hash),
        before.contains_key(parent_hash),
        looks_up(after, parent_hash, found, later),
    ensures
        ({
            ||| {
                &&& found matches Some(parent) && parent.block == before[parent_hash].target()
                &&& handle.block.parent() == Some(before[parent_hash].target())
            }
            ||| before[parent_hash].answers(None)
            ||| {
                &&& before.contains_key(sequence_hash)
                &&& handle.block == before[sequence_hash].target()
            }
        }),
{
    law_child_keeps_parent_alive(before, block, sequence_hash, handle, after, parent_hash);
}

/// Giving up a block keeps the references keyed by the hashes of their blocks.
pub proof fn law_give_up_keeps_keys<M: BlockMetadata>(
    before: Map<SequenceHash, WeakBlock<M>>,
    block: Block<M>,
    left: Block<M>,
    after: Map<SequenceHash, WeakBlock<M>>,
)
    requires
        well_keyed(before),
        gives_up(before, block, left, after),
    ensures
        well_keyed(after),
{
}

/// Blocks that sequences use, found by their sequence hash for as long as somebody
/// holds them.
#[verifier::reject_recursive_types(M)]
pub struct ActiveBlockPool<M> {
    map: HashMap<SequenceHash, WeakBlock<M>>,
}

impl<M> View for ActiveBlockPool<M> {
    type V = Map<SequenceHash, WeakBlock<M>>;

    closed spec fn view(&self) -> Map<SequenceHash, WeakBlock<M>> {
        self.map@
    }
}

impl<M: BlockMetadata> Default for ActiveBlockPool<M> {
    fn default() -> (pool: ActiveBlockPool<M>)
        ensures
            pool.wf(),
            pool@ == Map::<SequenceHash, WeakBlock<M>>::empty(),
    {
        Self::new()
    }
}

impl<M: BlockMetadata> ActiveBlockPool<M> {
    pub open spec fn wf(&self) -> bool {
        well_keyed(self@)
    }

    pub fn new() -> (pool: ActiveBlockPool<M>)
        ensures
            pool.wf(),
            pool@ == Map::<SequenceHash, WeakBlock<M>>::empty(),
    {
        ActiveBlockPool { map: HashMap::new() }
    }

    /// Shares a registered block under its sequence hash.
    ///
    /// The block that precedes it in its sequence, where that one is active, is kept
    /// alive for as long as the block itself. Where a block is alive under the hash
    /// already, a handle to that one is given and the new one goes back to the pool.
    pub fn register(&mut self, block: MutableBlock<M>) -> (res: Result<
        ImmutableBlock<M>,
        BlockPoolError,
    >)
        requires
            old(self).wf(),
        ensures
            final(self).wf(),
            if block@ matches Some(content) && content.state is Registered {
                res matches Ok(handle) && {
                    &&& registers(old(self)@, block, block.hash()->0, handle, final(self)@)
                    &&& handle.block.registered_as(block.hash()->0)
                }
            } else {
                &&& res matches Err(BlockPoolError::InvalidMutableBlock(text)) && text@
                    == "block is not registered"@
                &&& final(self)@ == old(self)@
            },
    {
        if !block.is_registered() {
            return Err(
                BlockPoolError::InvalidMutableBlock("block is not registered".to_string()),
            );
        }
        let sequence_hash = match block.sequence_hash() {
            Ok(sequence_hash) => sequence_hash,
            Err(_) => {
                return Err(
                    BlockPoolError::InvalidMutableBlock("block has no sequence hash".to_string()),
                );
            },
        };
        let ghost given = block;
        let mut block = block;
        let mut parent: Option<ImmutableBlock<M>> = None;
        if let Ok(Some(parent_hash)) = block.parent_sequence_hash() {
            parent = self.match_sequence_hash(parent_hash);
            if let Some(parent_block) = &parent {
                block.set_parent(parent_block.mutable_block().clone());
            }
        }
        let ghost between = self@;
        let shared = Arc::new(block);
        let current = match self.map.get(&sequence_hash) {
            Some(weak) => weak.upgrade(),
            None => None,
        };
        let ghost sharing = shared;
        let handle = self.settle_register(sequence_hash, shared, current);
        proof {
            assert(looks_up_parent(old(self)@, given@->0, parent, between));
            assert(adopts(given, parent, *sharing));
            assert(admits(between, sequence_hash, sharing, handle, self@));
            law_register_keeps_hash(old(self)@, given, sequence_hash, handle, self@);
        }
        Ok(handle)
    }

    /// Enters `shared` under `sequence_hash`, where `current` is what the reference that
    /// stands there was upgraded to.
    pub fn settle_register(
        &mut self,
        sequence_hash: SequenceHash,
        shared: Arc<MutableBlock<M>>,
        current: Option<Arc<MutableBlock<M>>>,
    ) -> (handle: ImmutableBlock<M>)
        requires
            old(self).wf(),
            shared.registered_as(sequence_hash),
        ensures
            final(self).wf(),
            match current {
                Some(strong) => {
                    &&& handle == (ImmutableBlock { block: strong, duplicate: None })
                    &&& final(self)@ == old(self)@
                },
                None => {
                    &&& handle == (ImmutableBlock { block: shared, duplicate: None })
                    &&& final(self)@.contains_key(sequence_hash)
                    &&& final(self)@[sequence_hash].target() == shared
                    &&& final(self)@ == old(self)@.insert(
                        sequence_hash,
                        final(self)@[sequence_hash],
                    )
                },
            },
    {
        match current {
            Some(strong) => ImmutableBlock::new(strong),
            None => {
                let weak = WeakBlock::downgrade(&shared);
                self.map.insert(sequence_hash, weak);
                ImmutableBlock::new(shared)
            },
        }
    }

    /// Gives up a block that comes back to the pool.
    pub fn remove(&mut self, block: &mut Block<M>)
        requires
            old(self).wf(),
        ensures
            final(self).wf(),
            gives_up(old(self)@, *old(block), *final(block), final(self)@),
    {
        if let Ok(sequence_hash) = block.sequence_hash() {
            let strong = match self.map.get(&sequence_hash) {
                Some(weak) => weak.upgrade(),
                None => {
                    return ;
                },
            };
            let alive = strong.is_some();
            self.settle_remove(block, sequence_hash, alive);
        }
    }

    /// Gives up `block`, of which the reference under `sequence_hash` is `alive` or not.
    pub fn settle_remove(
        &mut self,
        block: &mut Block<M>,
        sequence_hash: SequenceHash,
        alive: bool,
    )
        requires
            old(self).wf(),
        ensures
            final(self).wf(),
            if alive {
                *final(block) == old(block).cleared() && final(self)@ == old(self)@
            } else {
                *final(block) == *old(block) && final(self)@ == old(self)@.remove(sequence_hash)
            },
    {
        if alive {
            block.reset();
        } else {
            self.map.remove(&sequence_hash);
        }
    }

    /// Finds the block that is active under `sequence_hash`.
    pub fn match_sequence_hash(&mut self, sequence_hash: SequenceHash) -> (found: Option<
        ImmutableBlock<M>,
    >)
        requires
            old(self).wf(),
        ensures
            final(self).wf(),
            looks_up(old(self)@, sequence_hash, found, final(self)@),
            found matches Some(handle) ==> handle.block.registered_as(sequence_hash),
    {
        let strong = match self.map.get(&sequence_hash) {
            Some(weak) => weak.upgrade(),
            None => {
                assert(self@ =~= old(self)@.remove(sequence_hash));
                return None;
            },
        };
        self.settle_match(sequence_hash, strong)
    }

    /// Answers a lookup of `sequence_hash`, where `strong` is what the reference that
    /// stands there was upgraded to.
    pub fn settle_match(
        &mut self,
        sequence_hash: SequenceHash,
        strong: Option<Arc<MutableBlock<M>>>,
    ) -> (found: Option<ImmutableBlock<M>>)
        requires
            old(self).wf(),
        ensures
            final(self).wf(),
            match strong {
                Some(block) => {
                    &&& found == Some(ImmutableBlock { block, duplicate: None })
                    &&& final(self)@ == old(self)@
                },
                None => found is None && final(self)@ == old(self)@.remove(sequence_hash),
            },
    {
        match strong {
            Some(block) => Some(ImmutableBlock::new(block)),
            None => {
                self.map.remove(&sequence_hash);
                None
            },
        }
    }

    /// The number of references, stale ones included.
    pub fn status(&self) -> (len: usize)
        ensures
            self@.dom().finite(),
            len == self@.len(),
    {
        self.map.len()
    }
}

/// What is said of an active pool is said of its map.
proof fn law_active_pool_is_what_its_map_holds<M>(pool: ActiveBlockPool<M>)
    ensures
        pool@ == pool.map@,
{
}

} // verus!
