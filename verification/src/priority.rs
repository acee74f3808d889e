use vstd::prelude::*;

use crate::metadata::BlockMetadata;
use crate::tokens::SequenceHash;

verus! {

/// Place of a cached block in the order of eviction.
#[derive(Debug, PartialEq, Eq, PartialOrd, Ord)]
pub struct PriorityKey<M> {
    pub metadata: M,
    pub sequence_hash: SequenceHash,
}

impl<M: BlockMetadata> PriorityKey<M> {
    /// Keys are ordered by metadata, and by sequence hash where the metadata is equal.
    pub open spec fn at_most(self, other: PriorityKey<M>) -> bool {
        &&& self.metadata.precedes(other.metadata)
        &&& self.metadata == other.metadata ==> self.sequence_hash <= other.sequence_hash
    }

    pub fn new(metadata: M, sequence_hash: SequenceHash) -> (key: PriorityKey<M>)
        ensures
            key == (PriorityKey { metadata, sequence_hash }),
    {
        PriorityKey { metadata, sequence_hash }
    }

    pub fn metadata(&self) -> (metadata: &M)
        ensures
            *metadata == self.metadata,
    {
        &self.metadata
    }

    pub fn sequence_hash(&self) -> (sequence_hash: SequenceHash)
        ensures
            sequence_hash == self.sequence_hash,
    {
        self.sequence_hash
    }

    pub fn precedes_or_equals(&self, other: &PriorityKey<M>) -> (holds: bool)
        ensures
            holds == self.at_most(*other),
    {
        let forward = self.metadata.precedes_or_equals(&other.metadata);
        let backward = other.metadata.precedes_or_equals(&self.metadata);
        proof {
            M::precedes_reflexive(self.metadata);
            if forward && backward {
                M::precedes_antisymmetric(self.metadata, other.metadata);
            }
        }
        forward && (!backward || self.sequence_hash <= other.sequence_hash)
    }
}

/// The order of keys is reflexive.
pub proof fn law_key_order_reflexive<M: BlockMetadata>(a: PriorityKey<M>)
    ensures
        a.at_most(a),
{
    M::precedes_reflexive(a.metadata);
}

/// Two keys that are ordered both ways are equal.
pub proof fn law_key_order_antisymmetric<M: BlockMetadata>(a: PriorityKey<M>, b: PriorityKey<M>)
    requires
        a.at_most(b),
        b.at_most(a),
    ensures
        a == b,
{
    M::precedes_antisymmetric(a.metadata, b.metadata);
}

/// The order of keys is transitive.
pub proof fn law_key_order_transitive<M: BlockMetadata>(
    a: PriorityKey<M>,
    b: PriorityKey<M>,
    c: PriorityKey<M>,
)
    requires
        a.at_most(b),
        b.at_most(c),
    ensures
        a.at_most(c),
{
    M::precedes_transitive(a.metadata, b.metadata, c.metadata);
    if a.metadata == c.metadata {
        M::precedes_antisymmetric(a.metadata, b.metadata);
    }
}

/// Any two keys are ordered one way or the other.
pub proof fn law_key_order_total<M: BlockMetadata>(a: PriorityKey<M>, b: PriorityKey<M>)
    ensures
        a.at_most(b) || b.at_most(a),
{
    M::precedes_total(a.metadata, b.metadata);
    M::precedes_reflexive(a.metadata);
    if a.metadata.precedes(b.metadata) && b.metadata.precedes(a.metadata) {
        M::precedes_antisymmetric(a.metadata, b.metadata);
    }
}

/// Set of keys from which the least is taken first.
pub struct PrioritySet<M> {
    /// Held in descending order, so that the least key is the last.
    keys: Vec<PriorityKey<M>>,
}

/// `keys` falls strictly from each element to every later one.
spec fn descending<M: BlockMetadata>(keys: Seq<PriorityKey<M>>) -> bool {
    forall|i: int, j: int|
        #![trigger keys[i], keys[j]]
        0 <= i < j < keys.len() ==> keys[j].at_most(keys[i]) && keys[j] != keys[i]
}

impl<M> View for PrioritySet<M> {
    type V = Set<PriorityKey<M>>;

    closed spec fn view(&self) -> Set<PriorityKey<M>> {
        self.keys@.to_set()
    }
}

impl<M: BlockMetadata> PrioritySet<M> {
    pub closed spec fn wf(&self) -> bool {
        descending(self.keys@)
    }

    proof fn lemma_len(&self)
        requires
            self.wf(),
        ensures
            self@.finite(),
            self@.len() == self.keys@.len(),
    {
        assert(self.keys@.no_duplicates());
        self.keys@.unique_seq_to_set();
    }

    pub fn new() -> (set: PrioritySet<M>)
        ensures
            set.wf(),
            set@ == Set::<PriorityKey<M>>::empty(),
    {
        let set = PrioritySet { keys: Vec::new() };
        assert(set@ =~= Set::<PriorityKey<M>>::empty());
        set
    }

    pub fn len(&self) -> (len: usize)
        requires
            self.wf(),
        ensures
            self@.finite(),
            len == self@.len(),
    {
        proof {
            self.lemma_len();
        }
        self.keys.len()
    }

    pub fn is_empty(&self) -> (res: bool)
        ensures
            res == (self@ == Set::<PriorityKey<M>>::empty()),
    {
        proof {
            if self.keys@.len() > 0 {
                assert(self@.contains(self.keys@[0]));
            } else {
                assert(self@ =~= Set::<PriorityKey<M>>::empty());
            }
        }
        self.keys.len() == 0
    }

    /// The number of keys that are greater than `key`, which is where it stands or belongs.
    fn position(&self, key: &PriorityKey<M>) -> (at: usize)
        requires
            self.wf(),
        ensures
            at <= self.keys@.len(),
            forall|i: int| 0 <= i < at ==> !(#[trigger] self.keys@[i]).at_most(*key),
            forall|i: int| at <= i < self.keys@.len() ==> (#[trigger] self.keys@[i]).at_most(*key),
    {
        let mut low: usize = 0;
        let mut high: usize = self.keys.len();
        while low < high
            invariant
                self.wf(),
                low <= high <= self.keys@.len(),
                forall|i: int| 0 <= i < low ==> !(#[trigger] self.keys@[i]).at_most(*key),
                forall|i: int|
                    high <= i < self.keys@.len() ==> (#[trigger] self.keys@[i]).at_most(*key),
            decreases high - low,
        {
            let middle: usize = low + (high - low) / 2;
            if self.keys[middle].precedes_or_equals(key) {
                assert forall|i: int| middle <= i < self.keys@.len() implies (
                #[trigger] self.keys@[i]).at_most(*key) by {
                    if i > middle {
                        law_key_order_transitive(self.keys@[i], self.keys@[middle as int], *key);
                    }
                }
                high = middle;
            } else {
                assert forall|i: int| 0 <= i <= middle implies !(
                #[trigger] self.keys@[i]).at_most(*key) by {
                    if i < middle && self.keys@[i].at_most(*key) {
                        law_key_order_transitive(self.keys@[middle as int], self.keys@[i], *key);
                    }
                }
                low = middle + 1;
            }
        }
        low
    }

    /// Whether the key that stands at `at`, if there is one, is `key`.
    fn stands_at(&self, key: &PriorityKey<M>, at: usize) -> (res: bool)
        requires
            self.wf(),
            at <= self.keys@.len(),
            forall|i: int| 0 <= i < at ==> !(#[trigger] self.keys@[i]).at_most(*key),
            forall|i: int| at <= i < self.keys@.len() ==> (#[trigger] self.keys@[i]).at_most(*key),
        ensures
            res == self@.contains(*key),
            res ==> at < self.keys@.len() && self.keys@[at as int] == *key,
    {
        let res = at < self.keys.len() && key.precedes_or_equals(&self.keys[at]);
        proof {
            law_key_order_reflexive(*key);
            if res {
                law_key_order_antisymmetric(self.keys@[at as int], *key);
                assert(self.keys@.contains(*key));
            } else if self@.contains(*key) {
                let i = choose|i: int| 0 <= i < self.keys@.len() && self.keys@[i] == *key;
                assert(at <= i);
                if at < i {
                    assert(self.keys@[i].at_most(self.keys@[at as int]));
                }
            }
        }
        res
    }

    pub fn contains(&self, key: &PriorityKey<M>) -> (res: bool)
        requires
            self.wf(),
        ensures
            res == self@.contains(*key),
    {
        let at = self.position(key);
        self.stands_at(key, at)
    }

    /// Adds `key`, and tells whether it was absent.
    pub fn insert(&mut self, key: PriorityKey<M>) -> (added: bool)
        requires
            old(self).wf(),
        ensures
            final(self).wf(),
            added == !old(self)@.contains(key),
            final(self)@ == old(self)@.insert(key),
    {
        let at = self.position(&key);
        if self.stands_at(&key, at) {
            assert(self@ =~= old(self)@.insert(key));
            return false;
        }
        let ghost before = self.keys@;
        self.keys.insert(at, key);
        proof {
            let after = self.keys@;
            assert(after == before.insert(at as int, key));
            assert forall|i: int, j: int|
                #![trigger after[i], after[j]]
                0 <= i < j < after.len() implies after[j].at_most(after[i]) && after[j]
                != after[i] by {
                let old_i = if i < at { i } else { i - 1 };
                let old_j = if j < at { j } else { j - 1 };
                if i == at {
                    assert(after[j] == before[old_j]);
                    assert(before.contains(before[old_j]));
                } else if j == at {
                    assert(after[i] == before[i]);
                    assert(before.contains(before[i]));
                    law_key_order_total(key, before[i]);
                } else {
                    assert(after[i] == before[old_i]);
                    assert(after[j] == before[old_j]);
                }
            }
            assert(self@ =~= old(self)@.insert(key)) by {
                assert forall|k: PriorityKey<M>| self@.contains(k) == old(self)@.insert(
                    key,
                ).contains(k) by {
                    if self@.contains(k) {
                        let i = choose|i: int| 0 <= i < after.len() && after[i] == k;
                        if i != at {
                            let old_i = if i < at { i } else { i - 1 };
                            assert(before[old_i] == k);
                        }
                    }
                    if old(self)@.contains(k) {
                        let i = choose|i: int| 0 <= i < before.len() && before[i] == k;
                        let new_i = if i < at { i } else { i + 1 };
                        assert(after[new_i] == k);
                    }
                    assert(after[at as int] == key);
                }
            }
        }
        true
    }

    /// Removes `key`, and tells whether it was present.
    pub fn remove(&mut self, key: &PriorityKey<M>) -> (removed: bool)
        requires
            old(self).wf(),
        ensures
            final(self).wf(),
            removed == old(self)@.contains(*key),
            final(self)@ == old(self)@.remove(*key),
    {
        let at = self.position(key);
        if !self.stands_at(key, at) {
            assert(self@ =~= old(self)@.remove(*key));
            return false;
        }
        let ghost before = self.keys@;
        let _removed = self.keys.remove(at);
        proof {
            let after = self.keys@;
            assert(after == before.remove(at as int));
            assert forall|i: int, j: int|
                #![trigger after[i], after[j]]
                0 <= i < j < after.len() implies after[j].at_most(after[i]) && after[j]
                != after[i] by {
                let old_i = if i < at { i } else { i + 1 };
                let old_j = if j < at { j } else { j + 1 };
                assert(after[i] == before[old_i]);
                assert(after[j] == before[old_j]);
            }
            assert forall|k: PriorityKey<M>| self@.contains(k) == old(self)@.remove(*key).contains(
                k,
            ) by {
                if self@.contains(k) {
                    let i = choose|i: int| 0 <= i < after.len() && after[i] == k;
                    let old_i = if i < at { i } else { i + 1 };
                    assert(before[old_i] == k);
                    assert(before[at as int] == *key);
                }
                if old(self)@.contains(k) && k != *key {
                    let i = choose|i: int| 0 <= i < before.len() && before[i] == k;
                    let new_i = if i < at { i } else { i - 1 };
                    assert(after[new_i] == k);
                }
            }
            assert(self@ =~= old(self)@.remove(*key));
        }
        true
    }

    /// Takes out the least key.
    pub fn pop_first(&mut self) -> (first: Option<PriorityKey<M>>)
        requires
            old(self).wf(),
        ensures
            final(self).wf(),
            match first {
                Some(key) => {
                    &&& old(self)@.contains(key)
                    &&& forall|other: PriorityKey<M>| #[trigger]
                        old(self)@.contains(other) ==> key.at_most(other)
                    &&& final(self)@ == old(self)@.remove(key)
                },
                None => old(self)@ == Set::<PriorityKey<M>>::empty() && final(self)@ == old(self)@,
            },
    {
        let ghost before = self.keys@;
        let first = self.keys.pop();
        proof {
            if first is Some {
                let key = first->0;
                let after = self.keys@;
                let last = before.len() - 1;
                assert(before[last] == key);
                assert(after == before.drop_last());
                assert forall|other: PriorityKey<M>| #[trigger]
                    old(self)@.contains(other) implies key.at_most(other) by {
                    let i = choose|i: int| 0 <= i < before.len() && before[i] == other;
                    law_key_order_reflexive(key);
                    if i < last {
                        assert(before[last].at_most(before[i]));
                    }
                }
                assert forall|k: PriorityKey<M>| self@.contains(k) == old(self)@.remove(
                    key,
                ).contains(k) by {
                    if self@.contains(k) {
                        let i = choose|i: int| 0 <= i < after.len() && after[i] == k;
                        assert(before[i] == k);
                        assert(before[last] != before[i]);
                    }
                    if old(self)@.contains(k) && k != key {
                        let i = choose|i: int| 0 <= i < before.len() && before[i] == k;
                        assert(after[i] == k);
                    }
                }
                assert(self@ =~= old(self)@.remove(key));
            } else {
                assert(self@ =~= Set::<PriorityKey<M>>::empty());
            }
        }
        first
    }
}

/// The order of keys follows that of the metadata, whatever the hashes; only between keys of
/// equal metadata does the hash decide.
pub proof fn law_key_order_follows_metadata<M: BlockMetadata>(
    a: PriorityKey<M>,
    b: PriorityKey<M>,
)
    ensures
        a.metadata.precedes(b.metadata) && a.metadata != b.metadata ==> a.at_most(b)
            && !b.at_most(a),
        a.at_most(b) ==> a.metadata.precedes(b.metadata),
        a.metadata == b.metadata ==> (a.at_most(b) <==> a.sequence_hash <= b.sequence_hash),
{
    M::precedes_reflexive(a.metadata);
    if a.metadata.precedes(b.metadata) && b.metadata.precedes(a.metadata) {
        M::precedes_antisymmetric(a.metadata, b.metadata);
    }
}

/// The keys of a set are those of its vector, and the least of them is the last there.
proof fn law_set_is_what_its_vector_holds<M: BlockMetadata>(set: PrioritySet<M>, i: int)
    ensures
        set@ == set.keys@.to_set(),
        set.wf() && 0 <= i < set.keys@.len() ==> set.keys@.last().at_most(set.keys@[i]),
{
    law_key_order_reflexive(set.keys@.last());
}

} // verus!
