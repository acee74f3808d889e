use vstd::prelude::*;

verus! {

/// Metadata carried by a block.
///
/// Cached blocks are evicted in the order of their metadata, the least first,
/// so the type brings a total order next to the hooks that keep it up to date.
pub trait BlockMetadata: Sized {
    /// The order of eviction: `self` leaves before `other`, or the two are equal.
    spec fn precedes(self, other: Self) -> bool;

    /// The metadata once the block was handed out at `tick`.
    spec fn acquired(self, tick: u64) -> Self;

    /// The metadata once the block came back at `tick`.
    spec fn returned(self, tick: u64) -> Self;

    /// The metadata once the block was reset.
    spec fn cleared(self) -> Self;

    /// The priority at which the block is offloaded, if it is to be offloaded.
    spec fn offload(self) -> Option<u64>;

    proof fn precedes_reflexive(a: Self)
        ensures
            a.precedes(a),
    ;

    proof fn precedes_antisymmetric(a: Self, b: Self)
        requires
            a.precedes(b),
            b.precedes(a),
        ensures
            a == b,
    ;

    proof fn precedes_transitive(a: Self, b: Self, c: Self)
        requires
            a.precedes(b),
            b.precedes(c),
        ensures
            a.precedes(c),
    ;

    proof fn precedes_total(a: Self, b: Self)
        ensures
            a.precedes(b) || b.precedes(a),
    ;

    fn precedes_or_equals(&self, other: &Self) -> (holds: bool)
        ensures
            holds == self.precedes(*other),
    ;

    fn duplicate(&self) -> (copy: Self)
        ensures
            copy == *self,
    ;

    fn on_acquired(&mut self, tick: u64)
        ensures
            *final(self) == old(self).acquired(tick),
    ;

    fn on_returned(&mut self, tick: u64)
        ensures
            *final(self) == old(self).returned(tick),
    ;

    fn reset_metadata(&mut self)
        ensures
            *final(self) == old(self).cleared(),
    ;

    fn offload_priority(&self) -> (priority: Option<u64>)
        ensures
            priority == self.offload(),
    ;
}

/// Metadata ordered by priority, then by the tick of the last return, then by
/// the tick of the last acquisition.
#[derive(Clone, Copy, Debug, Default, PartialEq, Eq, PartialOrd, Ord)]
pub struct BasicMetadata {
    pub priority: u32,
    pub returned_tick: u64,
    pub acquired_tick: u64,
}

impl BasicMetadata {
    pub fn new(priority: u32, returned_tick: u64, acquired_tick: u64) -> (metadata: BasicMetadata)
        ensures
            metadata.priority == priority,
            metadata.returned_tick == returned_tick,
            metadata.acquired_tick == acquired_tick,
    {
        BasicMetadata { priority, returned_tick, acquired_tick }
    }
}

impl BlockMetadata for BasicMetadata {
    open spec fn precedes(self, other: Self) -> bool {
        ||| self.priority < other.priority
        ||| self.priority == other.priority && self.returned_tick < other.returned_tick
        ||| self.priority == other.priority && self.returned_tick == other.returned_tick
            && self.acquired_tick <= other.acquired_tick
    }

    open spec fn acquired(self, tick: u64) -> Self {
        BasicMetadata { acquired_tick: tick, ..self }
    }

    open spec fn returned(self, tick: u64) -> Self {
        BasicMetadata { returned_tick: tick, ..self }
    }

    open spec fn cleared(self) -> Self {
        BasicMetadata { priority: 0, ..self }
    }

    open spec fn offload(self) -> Option<u64> {
        Some(self.priority as u64)
    }

    proof fn precedes_reflexive(a: Self) {
    }

    proof fn precedes_antisymmetric(a: Self, b: Self) {
    }

    proof fn precedes_transitive(a: Self, b: Self, c: Self) {
    }

    proof fn precedes_total(a: Self, b: Self) {
    }

    fn precedes_or_equals(&self, other: &Self) -> (holds: bool) {
        if self.priority != other.priority {
            self.priority < other.priority
        } else if self.returned_tick != other.returned_tick {
            self.returned_tick < other.returned_tick
        } else {
            self.acquired_tick <= other.acquired_tick
        }
    }

    fn duplicate(&self) -> (copy: Self) {
        *self
    }

    fn on_acquired(&mut self, tick: u64) {
        self.acquired_tick = tick;
    }

    fn on_returned(&mut self, tick: u64) {
        self.returned_tick = tick;
    }

    fn reset_metadata(&mut self) {
        self.priority = 0;
    }

    fn offload_priority(&self) -> (priority: Option<u64>) {
        Some(self.priority as u64)
    }
}

/// Blocks of lower priority leave first, whatever their ticks; among those of one priority the
/// one that came back earlier leaves first, and then the one that was handed out earlier.
pub proof fn law_basic_metadata_order(a: BasicMetadata, b: BasicMetadata)
    ensures
        a.priority < b.priority ==> a.precedes(b) && !b.precedes(a),
        a.priority == b.priority && a.returned_tick < b.returned_tick ==> a.precedes(b)
            && !b.precedes(a),
        a.priority == b.priority && a.returned_tick == b.returned_tick ==> (a.precedes(b)
            <==> a.acquired_tick <= b.acquired_tick),
{
}

/// Each hook records its tick and keeps the rest: a block that comes back later leaves later. A
/// reset takes the priority alone. The priority is the one at which the block is offloaded.
pub proof fn law_basic_metadata_hooks(a: BasicMetadata, tick: u64, later: u64)
    ensures
        a.acquired(tick).priority == a.priority,
        a.acquired(tick).returned_tick == a.returned_tick,
        a.acquired(tick).acquired_tick == tick,
        a.returned(tick).priority == a.priority,
        a.returned(tick).returned_tick == tick,
        a.returned(tick).acquired_tick == a.acquired_tick,
        tick <= later ==> a.returned(tick).precedes(a.returned(later)),
        a.cleared().priority == 0,
        a.cleared().returned_tick == a.returned_tick,
        a.cleared().acquired_tick == a.acquired_tick,
        a.offload() == Some(a.priority as u64),
{
}

} // verus!
