use std::sync::{Arc, Weak};

use vstd::prelude::*;

use crate::block::MutableBlock;

verus! {

/// The weak pointer of the standard library, hidden from the verifier.
#[verifier::external_body]
#[verifier::reject_recursive_types(M)]
struct WeakPointer<M> {
    pointer: Weak<MutableBlock<M>>,
}

/// `pointer` is a weak pointer that was made from `block`.
spec fn points_to<M>(pointer: WeakPointer<M>, block: Arc<MutableBlock<M>>) -> bool {
    call_ensures(downgrade_pointer::<M>, (&block,), pointer)
}

/// Calls `std::sync::Arc::downgrade`, which makes a weak pointer to the allocation of
/// `block`. The pointer is opaque, so there is nothing to say of it here.
#[verifier::external_body]
fn downgrade_pointer<M>(block: &Arc<MutableBlock<M>>) -> (pointer: WeakPointer<M>) {
    WeakPointer { pointer: Arc::downgrade(block) }
}

/// Calls `std::sync::Weak::upgrade`: where a block is given, it is the one from which the
/// pointer was made. A weak pointer points to one allocation, and what is shared there
/// cannot be changed while the pointer exists, so the block is the same as it was then.
///
/// Nothing is said of when a block is given: that depends on whether anybody still holds
/// the allocation, which is not part of a value.
#[verifier::external_body]
fn upgrade_pointer<M>(pointer: &WeakPointer<M>) -> (strong: Option<Arc<MutableBlock<M>>>)
    ensures
        strong matches Some(block) ==> forall|made_from: Arc<MutableBlock<M>>| #[trigger]
            points_to(*pointer, made_from) ==> block == made_from,
{
    pointer.pointer.upgrade()
}

/// A reference to a shared block that does not keep the block alive.
#[verifier::reject_recursive_types(M)]
pub struct WeakBlock<M> {
    pointer: WeakPointer<M>,
    target: Ghost<Arc<MutableBlock<M>>>,
}

impl<M> WeakBlock<M> {
    /// The pointer was made from the block to which the reference refers.
    #[verifier::type_invariant]
    spec fn points_to_target(self) -> bool {
        points_to(self.pointer, self.target@)
    }

    /// The block to which the reference refers.
    pub closed spec fn target(&self) -> Arc<MutableBlock<M>> {
        self.target@
    }

    /// `strong` is an answer that upgrading the pointer gives at some time. A reference that
    /// was upgraded once and found dead later has both answers.
    pub closed spec fn answers(self, strong: Option<Arc<MutableBlock<M>>>) -> bool {
        call_ensures(upgrade_pointer::<M>, (&self.pointer,), strong)
    }

    /// The reference can be upgraded at some time.
    pub open spec fn live(self) -> bool {
        self.answers(Some(self.target()))
    }

    /// Makes a reference to `block`.
    pub fn downgrade(block: &Arc<MutableBlock<M>>) -> (reference: WeakBlock<M>)
        ensures
            reference.target() == *block,
    {
        WeakBlock { pointer: downgrade_pointer(block), target: Ghost(*block) }
    }

    /// The block, if anybody still holds it.
    pub fn upgrade(&self) -> (strong: Option<Arc<MutableBlock<M>>>)
        ensures
            self.answers(strong),
            strong matches Some(block) ==> block == self.target(),
    {
        proof {
            use_type_invariant(self);
        }
        upgrade_pointer(&self.pointer)
    }
}

/// Each answer is one that the pointer gives when it is asked.
proof fn law_answers_come_from_the_pointer<M>(
    reference: WeakBlock<M>,
    strong: Option<Arc<MutableBlock<M>>>,
)
    ensures
        reference.answers(strong) <==> call_ensures(
            upgrade_pointer::<M>,
            (&reference.pointer,),
            strong,
        ),
{
}

/// A reference is alive where its own target is an answer that it gives.
pub proof fn law_live_reference_gives_its_target<M>(reference: WeakBlock<M>)
    ensures
        reference.live() <==> reference.answers(Some(reference.target())),
{
}

} // verus!
