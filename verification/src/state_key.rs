//! The capability a state-key type must offer: decidable equality that agrees
//! with logical equality, and the ability to hand out an equal copy.

use vstd::prelude::*;

verus! {

/// A key type that identifies states of a machine.
///
/// `eq_key` must decide logical equality of keys, and `duplicate` must return
/// a key logically equal to the receiver. Integer keys are supported out of
/// the box; a caller may implement the trait for its own key types.
pub trait StateKey: Sized {
    /// Decides whether two keys are the same state.
    fn eq_key(&self, other: &Self) -> (b: bool)
        ensures
            b == (self == other),
    ;

    /// Returns a copy of the key, equal to the original.
    fn duplicate(&self) -> (k: Self)
        ensures
            k == *self,
    ;
}

impl StateKey for u32 {
    fn eq_key(&self, other: &Self) -> (b: bool)
        ensures
            b == (self == other),
    {
        *self == *other
    }

    fn duplicate(&self) -> (k: Self)
        ensures
            k == *self,
    {
        *self
    }
}

impl StateKey for u64 {
    fn eq_key(&self, other: &Self) -> (b: bool)
        ensures
            b == (self == other),
    {
        *self == *other
    }

    fn duplicate(&self) -> (k: Self)
        ensures
            k == *self,
    {
        *self
    }
}

impl StateKey for usize {
    fn eq_key(&self, other: &Self) -> (b: bool)
        ensures
            b == (self == other),
    {
        *self == *other
    }

    fn duplicate(&self) -> (k: Self)
        ensures
            k == *self,
    {
        *self
    }
}

impl StateKey for i64 {
    fn eq_key(&self, other: &Self) -> (b: bool)
        ensures
            b == (self == other),
    {
        *self == *other
    }

    fn duplicate(&self) -> (k: Self)
        ensures
            k == *self,
    {
        *self
    }
}

} // verus!
