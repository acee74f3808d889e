use std::sync::Arc;

use tokio::sync::mpsc::UnboundedSender;
use vstd::prelude::*;

use crate::errors::BlockError;
use crate::metadata::BlockMetadata;
use crate::tokens::{SequenceHash, TokenBlock};

verus! {

/// State of a block that was filled but is not registered yet.
#[derive(Clone, Copy, Debug, PartialEq, Eq)]
pub struct CompleteState {
    pub token_block: TokenBlock,
}

impl CompleteState {
    pub fn new(token_block: TokenBlock) -> (state: CompleteState)
        ensures
            state.token_block == token_block,
    {
        CompleteState { token_block }
    }
}

/// Identity under which a block is registered.
#[derive(Clone, Copy, Debug, PartialEq, Eq)]
pub struct RegistrationHandle {
    pub sequence_hash: SequenceHash,
    pub parent_sequence_hash: Option<SequenceHash>,
}

/// Life cycle of a block.
#[derive(Clone, Copy, Debug, PartialEq, Eq)]
pub enum BlockState {
    Reset,
    Partial,
    Complete(CompleteState),
    Registered(RegistrationHandle),
}

impl BlockState {
    pub fn is_reset(&self) -> (res: bool)
        ensures
            res == (*self is Reset),
    {
        matches!(self, BlockState::Reset)
    }

    pub fn is_registered(&self) -> (res: bool)
        ensures
            res == (*self is Registered),
    {
        matches!(self, BlockState::Registered(_))
    }
}

/// A block of the cache: its position in storage, its state and its metadata.
#[derive(Debug)]
pub struct Block<M> {
    pub block_id: usize,
    pub state: BlockState,
    pub metadata: M,
}

impl<M> Block<M> {
    /// The sequence hash of a block that is complete or registered.
    pub open spec fn hash(self) -> Option<SequenceHash> {
        match self.state {
            BlockState::Complete(complete) => Some(complete.token_block.sequence_hash),
            BlockState::Registered(handle) => Some(handle.sequence_hash),
            _ => None,
        }
    }

    /// The sequence hash of the block that precedes this one, where there is one.
    pub open spec fn parent_hash(self) -> Option<SequenceHash> {
        match self.state {
            BlockState::Complete(complete) => complete.token_block.parent_sequence_hash,
            BlockState::Registered(handle) => handle.parent_sequence_hash,
            _ => None,
        }
    }

    /// The block is registered under `sequence_hash`.
    pub open spec fn registered_as(self, sequence_hash: SequenceHash) -> bool {
        self.state is Registered && self.hash() == Some(sequence_hash)
    }

    /// The block with its token block, if it is complete, turned into a registration.
    pub open spec fn enrolled(self) -> Block<M> {
        match self.state {
            BlockState::Complete(complete) => Block {
                state: BlockState::Registered(
                    RegistrationHandle {
                        sequence_hash: complete.token_block.sequence_hash,
                        parent_sequence_hash: complete.token_block.parent_sequence_hash,
                    },
                ),
                ..self
            },
            _ => self,
        }
    }

    pub fn new(block_id: usize, metadata: M) -> (block: Block<M>)
        ensures
            block == (Block { block_id, state: BlockState::Reset, metadata }),
    {
        Block { block_id, state: BlockState::Reset, metadata }
    }

    pub fn block_id(&self) -> (block_id: usize)
        ensures
            block_id == self.block_id,
    {
        self.block_id
    }

    pub fn state(&self) -> (state: &BlockState)
        ensures
            *state == self.state,
    {
        &self.state
    }

    pub fn metadata(&self) -> (metadata: &M)
        ensures
            *metadata == self.metadata,
    {
        &self.metadata
    }

    pub fn update_state(&mut self, state: BlockState)
        ensures
            *final(self) == (Block { state, ..*old(self) }),
    {
        self.state = state;
    }

    pub fn sequence_hash(&self) -> (res: Result<SequenceHash, BlockError>)
        ensures
            res == (match self.hash() {
                Some(sequence_hash) => Ok(sequence_hash),
                None => Err(BlockError::InvalidState),
            }),
    {
        match &self.state {
            BlockState::Complete(complete) => Ok(complete.token_block.sequence_hash),
            BlockState::Registered(handle) => Ok(handle.sequence_hash),
            _ => Err(BlockError::InvalidState),
        }
    }

    pub fn parent_sequence_hash(&self) -> (res: Result<Option<SequenceHash>, BlockError>)
        ensures
            res == (match self.hash() {
                Some(_) => Ok(self.parent_hash()),
                None => Err(BlockError::InvalidState),
            }),
    {
        match &self.state {
            BlockState::Complete(complete) => Ok(complete.token_block.parent_sequence_hash),
            BlockState::Registered(handle) => Ok(handle.parent_sequence_hash),
            _ => Err(BlockError::InvalidState),
        }
    }

    /// Records that the block registry accepted this block.
    ///
    /// A complete block becomes registered under the hashes of its token block;
    /// in any other state there is nothing to register.
    pub fn mark_registered(&mut self) -> (res: Result<(), BlockError>)
        ensures
            res == (if old(self).state is Complete {
                Ok::<(), BlockError>(())
            } else {
                Err(BlockError::InvalidState)
            }),
            *final(self) == old(self).enrolled(),
    {
        match self.state {
            BlockState::Complete(complete) => {
                self.state = BlockState::Registered(
                    RegistrationHandle {
                        sequence_hash: complete.token_block.sequence_hash,
                        parent_sequence_hash: complete.token_block.parent_sequence_hash,
                    },
                );
                Ok(())
            },
            _ => Err(BlockError::InvalidState),
        }
    }
}

impl<M: BlockMetadata> Block<M> {
    /// The block after a reset.
    pub open spec fn cleared(self) -> Block<M> {
        Block { state: BlockState::Reset, metadata: self.metadata.cleared(), ..self }
    }

    /// The block as it is handed out at `tick`.
    pub open spec fn acquired(self, tick: u64) -> Block<M> {
        Block { metadata: self.metadata.acquired(tick), ..self }
    }

    /// The block as it comes back at `tick`.
    pub open spec fn returned(self, tick: u64) -> Block<M> {
        Block { metadata: self.metadata.returned(tick), ..self }
    }

    pub fn reset(&mut self)
        ensures
            *final(self) == old(self).cleared(),
    {
        self.state = BlockState::Reset;
        self.metadata.reset_metadata();
    }

    pub fn metadata_on_acquired(&mut self, tick: u64)
        ensures
            *final(self) == old(self).acquired(tick),
    {
        self.metadata.on_acquired(tick);
    }

    pub fn metadata_on_returned(&mut self, tick: u64)
        ensures
            *final(self) == old(self).returned(tick),
    {
        self.metadata.on_returned(tick);
    }
}

/// The sending half of an unbounded channel of the `tokio` crate.
#[verifier::external_type_specification]
#[verifier::external_body]
#[verifier::reject_recursive_types(T)]
pub struct ExUnboundedSender<T>(tokio::sync::mpsc::UnboundedSender<T>);

/// Calls `tokio::sync::mpsc::UnboundedSender::clone`: the copy is another handle
/// to the very channel that `sender` sends to, and channel handles are compared
/// by their channel.
#[verifier::external_body]
pub(crate) fn clone_sender<M>(sender: &UnboundedSender<Block<M>>) -> (copy: UnboundedSender<
    Block<M>,
>)
    ensures
        copy == *sender,
{
    sender.clone()
}

/// Exclusive handle to a block that left the inactive pool.
///
/// When the handle is dropped, the block it still holds is sent back to the pool.
#[verifier::reject_recursive_types(M)]
pub struct MutableBlock<M> {
    block: Option<Block<M>>,
    parent: Option<Arc<MutableBlock<M>>>,
    return_tx: UnboundedSender<Block<M>>,
}

impl<M> View for MutableBlock<M> {
    type V = Option<Block<M>>;

    /// The block behind the handle, unless it was taken out.
    closed spec fn view(&self) -> Option<Block<M>> {
        self.block
    }
}

/// Calls `tokio::sync::mpsc::UnboundedSender::send`, which queues the block for the
/// receiving half of the channel, or hands it back to be dropped where that half is
/// closed. It does not wait and does not panic.
///
/// Nothing is said of what the receiver gets: the channel is not part of a value.
#[verifier::external_body]
fn send_block<M>(sender: &UnboundedSender<Block<M>>, block: Block<M>)
    opens_invariants none
    no_unwind
{
    let _ = sender.send(block);
}

impl<M> Drop for MutableBlock<M> {
    fn drop(&mut self)
        opens_invariants none
        no_unwind
    {
        if let Some(block) = self.take_held() {
            send_block(&self.return_tx, block);
        }
    }
}

impl<M> MutableBlock<M> {
    /// The handle that keeps the preceding block of the sequence alive.
    pub closed spec fn parent(&self) -> Option<Arc<MutableBlock<M>>> {
        self.parent
    }

    /// The channel on which the block goes back to the pool.
    pub closed spec fn channel(&self) -> UnboundedSender<Block<M>> {
        self.return_tx
    }

    /// The handle holds a block registered under `sequence_hash`.
    pub open spec fn registered_as(&self, sequence_hash: SequenceHash) -> bool {
        self@ matches Some(block) && block.registered_as(sequence_hash)
    }

    /// The sequence hash of the block, where it has one.
    pub open spec fn hash(&self) -> Option<SequenceHash> {
        match self@ {
            Some(block) => block.hash(),
            None => None,
        }
    }

    /// The handle holds `block`, without a parent, and sends it back on `channel`.
    pub open spec fn wraps(&self, block: Block<M>, channel: UnboundedSender<Block<M>>) -> bool {
        &&& self@ == Some(block)
        &&& self.parent() is None
        &&& self.channel() == channel
    }

    pub fn new(block: Block<M>, return_tx: UnboundedSender<Block<M>>) -> (handle: MutableBlock<M>)
        ensures
            handle.wraps(block, return_tx),
    {
        MutableBlock { block: Some(block), parent: None, return_tx }
    }

    pub fn block(&self) -> (block: Option<&Block<M>>)
        ensures
            match block {
                Some(block) => self@ == Some(*block),
                None => self@ is None,
            },
    {
        self.block.as_ref()
    }

    /// The identifier of the block, unless the block was taken out.
    pub fn block_id(&self) -> (block_id: Option<usize>)
        ensures
            block_id == (match self@ {
                Some(block) => Some(block.block_id),
                None => None,
            }),
    {
        match &self.block {
            Some(block) => Some(block.block_id),
            None => None,
        }
    }

    pub fn is_registered(&self) -> (res: bool)
        ensures
            res == (self@ matches Some(block) && block.state is Registered),
    {
        match &self.block {
            Some(block) => block.state.is_registered(),
            None => false,
        }
    }

    pub fn sequence_hash(&self) -> (res: Result<SequenceHash, BlockError>)
        ensures
            res == (match self.hash() {
                Some(sequence_hash) => Ok(sequence_hash),
                None => Err(BlockError::InvalidState),
            }),
    {
        match &self.block {
            Some(block) => block.sequence_hash(),
            None => Err(BlockError::InvalidState),
        }
    }

    pub fn parent_sequence_hash(&self) -> (res: Result<Option<SequenceHash>, BlockError>)
        ensures
            res == (match self@ {
                Some(block) if block.hash() is Some => Ok(block.parent_hash()),
                _ => Err(BlockError::InvalidState),
            }),
    {
        match &self.block {
            Some(block) => block.parent_sequence_hash(),
            None => Err(BlockError::InvalidState),
        }
    }

    /// Replaces the state of the block behind the handle.
    pub fn update_state(&mut self, state: BlockState)
        ensures
            final(self)@ == (match old(self)@ {
                Some(block) => Some(Block { state, ..block }),
                None => None,
            }),
            final(self).parent() == old(self).parent(),
            final(self).channel() == old(self).channel(),
    {
        if let Some(block) = &mut self.block {
            block.update_state(state);
        }
    }

    /// Records that the block registry accepted the block behind the handle.
    pub fn mark_registered(&mut self) -> (res: Result<(), BlockError>)
        ensures
            res == (if old(self)@ matches Some(block) && block.state is Complete {
                Ok::<(), BlockError>(())
            } else {
                Err(BlockError::InvalidState)
            }),
            final(self)@ == (match old(self)@ {
                Some(block) => Some(block.enrolled()),
                None => None,
            }),
            final(self).parent() == old(self).parent(),
            final(self).channel() == old(self).channel(),
    {
        match &mut self.block {
            Some(block) => block.mark_registered(),
            None => Err(BlockError::InvalidState),
        }
    }

    /// Ties the life of the preceding block to this one.
    pub fn set_parent(&mut self, parent: Arc<MutableBlock<M>>)
        ensures
            final(self)@ == old(self)@,
            final(self).parent() == Some(parent),
            final(self).channel() == old(self).channel(),
    {
        self.parent = Some(parent);
    }

    /// Takes out the block that the handle still holds.
    fn take_held(&mut self) -> (held: Option<Block<M>>)
        ensures
            held == old(self)@,
            final(self)@ is None,
            final(self).parent() == old(self).parent(),
            final(self).channel() == old(self).channel(),
        opens_invariants none
        no_unwind
    {
        let mut held: Option<Block<M>> = None;
        std::mem::swap(&mut held, &mut self.block);
        held
    }

    /// Takes the block out of the handle, which then has nothing to send back.
    pub fn try_take_block(self) -> (blocks: Option<Vec<Block<M>>>)
        ensures
            match self@ {
                Some(block) => blocks matches Some(taken) && taken@ == seq![block],
                None => blocks is None,
            },
    {
        let mut handle = self;
        match handle.take_held() {
            Some(block) => {
                let blocks = vec![block];
                Some(blocks)
            },
            None => None,
        }
    }
}

impl<M: BlockMetadata> MutableBlock<M> {
    /// The priority at which the block is offloaded, if it is to be offloaded.
    pub open spec fn offload(&self) -> Option<u64> {
        match self@ {
            Some(block) => block.metadata.offload(),
            None => None,
        }
    }

    pub fn offload_priority(&self) -> (priority: Option<u64>)
        ensures
            priority == self.offload(),
    {
        match &self.block {
            Some(block) => block.metadata.offload_priority(),
            None => None,
        }
    }
}

/// Shared handle to a registered block.
#[verifier::reject_recursive_types(M)]
pub struct ImmutableBlock<M> {
    pub block: Arc<MutableBlock<M>>,
    pub duplicate: Option<Arc<MutableBlock<M>>>,
}

impl<M> ImmutableBlock<M> {
    pub fn new(block: Arc<MutableBlock<M>>) -> (handle: ImmutableBlock<M>)
        ensures
            handle == (ImmutableBlock { block, duplicate: None }),
    {
        ImmutableBlock { block, duplicate: None }
    }

    pub fn mutable_block(&self) -> (block: &Arc<MutableBlock<M>>)
        ensures
            *block == self.block,
    {
        &self.block
    }

    pub fn block_id(&self) -> (block_id: Option<usize>)
        ensures
            block_id == (match self.block@ {
                Some(block) => Some(block.block_id),
                None => None,
            }),
    {
        self.block.block_id()
    }

    pub fn sequence_hash(&self) -> (res: Result<SequenceHash, BlockError>)
        ensures
            res == (match self.block.hash() {
                Some(sequence_hash) => Ok(sequence_hash),
                None => Err(BlockError::InvalidState),
            }),
    {
        self.block.sequence_hash()
    }

    /// Attaches a second block with the same content to a primary handle.
    pub fn with_duplicate(self, duplicate: Arc<MutableBlock<M>>) -> (res: Result<
        ImmutableBlock<M>,
        BlockError,
    >)
        ensures
            res == (if self.duplicate is None {
                Ok(ImmutableBlock { block: self.block, duplicate: Some(duplicate) })
            } else {
                Err(BlockError::NotPrimary)
            }),
    {
        if self.duplicate.is_some() {
            return Err(BlockError::NotPrimary);
        }
        Ok(ImmutableBlock { block: self.block, duplicate: Some(duplicate) })
    }
}

/// A block that was filled carries the hashes of its token block, one that is registered those
/// of its registration, and one that is empty or partly filled carries none. It is registered
/// under the hash of its registration, and under no other.
pub proof fn law_block_carries_its_hashes<M>(block: Block<M>, hash: SequenceHash)
    ensures
        block.state matches BlockState::Complete(complete) ==> {
            &&& block.hash() == Some(complete.token_block.sequence_hash)
            &&& block.parent_hash() == complete.token_block.parent_sequence_hash
        },
        block.state matches BlockState::Registered(handle) ==> {
            &&& block.hash() == Some(handle.sequence_hash)
            &&& block.parent_hash() == handle.parent_sequence_hash
        },
        block.state is Reset || block.state is Partial ==> block.hash() is None
            && block.parent_hash() is None,
        block.registered_as(hash) <==> (block.state matches BlockState::Registered(handle)
            && handle.sequence_hash == hash),
{
}

/// Registering a complete block keeps its identifier, its metadata and both of its hashes; a
/// block in any other state stays as it is.
pub proof fn law_enrolled_block_keeps_its_hashes<M>(block: Block<M>)
    ensures
        block.enrolled().block_id == block.block_id,
        block.enrolled().metadata == block.metadata,
        block.enrolled().hash() == block.hash(),
        block.enrolled().parent_hash() == block.parent_hash(),
        block.state is Complete ==> block.enrolled().state is Registered,
        block.state !is Complete ==> block.enrolled() == block,
{
}

/// Handing out a block and taking it back change its metadata by the hook for that, and
/// nothing else; a reset also takes its content. No block changes its identifier.
pub proof fn law_hooks_keep_the_block<M: BlockMetadata>(block: Block<M>, tick: u64)
    ensures
        block.acquired(tick).block_id == block.block_id,
        block.acquired(tick).state == block.state,
        block.acquired(tick).metadata == block.metadata.acquired(tick),
        block.returned(tick).block_id == block.block_id,
        block.returned(tick).state == block.state,
        block.returned(tick).metadata == block.metadata.returned(tick),
        block.cleared().block_id == block.block_id,
        block.cleared().state is Reset,
        block.cleared().metadata == block.metadata.cleared(),
{
}

/// A new handle holds the very block that it was made for, holds no other block alive, and
/// sends its block back on the channel that it was given.
pub proof fn law_handle_holds_its_block<M>(
    handle: MutableBlock<M>,
    block: Block<M>,
    channel: UnboundedSender<Block<M>>,
)
    ensures
        handle.wraps(block, channel) <==> {
            &&& handle@ == Some(block)
            &&& handle.parent() is None
            &&& handle.channel() == channel
        },
{
}

/// The hash of a handle, the hash under which it is registered and its priority for offloading
/// are those of the block that it holds.
pub proof fn law_handle_speaks_for_its_block<M: BlockMetadata>(
    handle: MutableBlock<M>,
    hash: SequenceHash,
)
    ensures
        handle@ matches Some(block) ==> {
            &&& handle.hash() == block.hash()
            &&& handle.registered_as(hash) == block.registered_as(hash)
            &&& handle.offload() == block.metadata.offload()
        },
        handle@ is None ==> handle.hash() is None && !handle.registered_as(hash)
            && handle.offload() is None,
{
}

/// What is said of a handle is said of its fields: the block that it holds, the handle that it
/// keeps alive and the channel on which it sends.
proof fn law_handle_is_what_its_fields_hold<M>(handle: MutableBlock<M>)
    ensures
        handle@ == handle.block,
        handle.parent() == handle.parent,
        handle.channel() == handle.return_tx,
{
}

} // verus!
