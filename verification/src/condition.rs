//! The predicate capability behind conditional transitions: a value that can
//! evaluate itself against the machine's parameters, together with a
//! specification-level account of when it holds.

use vstd::prelude::*;

verus! {

/// A predicate over the machine's parameter value, used as the trigger of a
/// conditional transition rule.
///
/// `holds` is the mathematical meaning of the predicate; `eval` computes it.
/// The machine's contracts are stated over `holds`, so a rule scan is a
/// deterministic function of the parameters. Callers implement this trait for
/// their own condition types.
pub trait Condition<P>: Sized {
    /// When the condition is true of the given parameters. An implementation
    /// overrides this to give its predicate a meaning; left alone, the
    /// condition means false, and `eval` must then return false.
    open spec fn holds(&self, params: &P) -> bool {
        false
    }

    /// Evaluates the condition against the given parameters.
    fn eval(&self, params: &P) -> (b: bool)
        ensures
            b == self.holds(params),
    ;
}

/// A condition that is true of every parameter value: a rule guarded by it
/// fires whenever it is scanned.
#[derive(Clone, Debug)]
pub struct Always;

impl<P> Condition<P> for Always {
    open spec fn holds(&self, params: &P) -> bool {
        true
    }

    fn eval(&self, params: &P) -> (b: bool)
        ensures
            b == self.holds(params),
    {
        true
    }
}

} // verus!
