use vstd::prelude::*;

verus! {

/// Hash that identifies the content of a block together with everything
/// that precedes it in its sequence.
pub type SequenceHash = u64;

/// What the pools read of a complete block of tokens.
#[derive(Clone, Copy, Debug, PartialEq, Eq)]
pub struct TokenBlock {
    pub sequence_hash: SequenceHash,
    pub parent_sequence_hash: Option<SequenceHash>,
}

impl TokenBlock {
    pub fn new(
        sequence_hash: SequenceHash,
        parent_sequence_hash: Option<SequenceHash>,
    ) -> (token_block: TokenBlock)
        ensures
            token_block.sequence_hash == sequence_hash,
            token_block.parent_sequence_hash == parent_sequence_hash,
    {
        TokenBlock { sequence_hash, parent_sequence_hash }
    }

    pub fn sequence_hash(&self) -> (sequence_hash: SequenceHash)
        ensures
            sequence_hash == self.sequence_hash,
    {
        self.sequence_hash
    }

    pub fn parent_sequence_hash(&self) -> (parent: Option<SequenceHash>)
        ensures
            parent == self.parent_sequence_hash,
    {
        self.parent_sequence_hash
    }
}

/// The token block of an empty sequence.
pub open spec fn empty_token_block() -> TokenBlock {
    TokenBlock { sequence_hash: 0, parent_sequence_hash: None }
}

impl Default for TokenBlock {
    fn default() -> (token_block: TokenBlock)
        ensures
            token_block == empty_token_block(),
    {
        TokenBlock { sequence_hash: 0, parent_sequence_hash: None }
    }
}

} // verus!
