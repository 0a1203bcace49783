//! The commonly used items, for a single import.

pub use crate::animator::{Animator, AnimatorError, AnimatorParams, Frame, PROGRESS_SCALE};
pub use crate::condition::{Always, Condition};
pub use crate::state_key::StateKey;
pub use crate::state_machine::{
    CurrentState, State, StateMachine, StateMachineError, Transition, TransitionEndState,
    TransitionStartState, TransitionTrigger,
};
