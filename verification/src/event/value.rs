use vstd::prelude::*;

verus! {

/// What a value must offer to travel through events and observables: an
/// equality test deciding whether a change is worth dispatching, and a
/// duplication producing one copy per subscriber.
///
/// `eqv` is the type's own equivalence — it may be coarser than structural
/// equality (a lifecycle status compares by variant, ignoring reason text) —
/// and must at least be reflexive. `dup` must return a value equal, in the
/// mathematical sense, to the original.
pub trait EventValue: Sized {
    /// The equivalence the observable's change gate uses.
    spec fn eqv(&self, other: &Self) -> bool;

    /// `eqv` holds between a value and itself.
    proof fn lemma_eqv_reflexive(&self)
        ensures
            self.eqv(self),
    ;

    /// Produces a copy of the value.
    fn dup(&self) -> (r: Self)
        ensures
            r == *self,
    ;

    /// Decides `eqv` executably.
    fn same(&self, other: &Self) -> (r: bool)
        ensures
            r == self.eqv(other),
    ;
}

impl EventValue for u64 {
    open spec fn eqv(&self, other: &Self) -> bool {
        *self == *other
    }

    proof fn lemma_eqv_reflexive(&self) {
    }

    fn dup(&self) -> (r: Self) {
        *self
    }

    fn same(&self, other: &Self) -> (r: bool) {
        *self == *other
    }
}

impl EventValue for String {
    open spec fn eqv(&self, other: &Self) -> bool {
        self@ == other@
    }

    proof fn lemma_eqv_reflexive(&self) {
    }

    fn dup(&self) -> (r: Self) {
        self.clone()
    }

    fn same(&self, other: &Self) -> (r: bool) {
        *self == *other
    }
}

} // verus!
