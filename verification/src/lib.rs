//! A per-entity timed state machine for driving discrete animation states,
//! together with a frame table that maps a state's progress to a displayed
//! frame value.
//!
//! Time is measured in integer ticks of a caller-chosen unit (for example
//! milliseconds); frame thresholds are fixed-point fractions of
//! [`PROGRESS_SCALE`](animator::PROGRESS_SCALE).

pub mod animator;
pub mod condition;
pub mod laws;
pub mod prelude;
pub mod state_key;
pub mod state_machine;

pub use condition::{Always, Condition};
pub use state_key::StateKey;
pub use state_machine::{
    CurrentState, MachineView, ScanKind, State, StateMachine, StateMachineError, Transition,
    TransitionEndState, TransitionStartState, TransitionTrigger,
};
pub use state_machine::TransitionTrigger as Trigger;
pub use animator::{
    Animator, AnimatorError, AnimatorParams, AnimatorView, Frame, PROGRESS_SCALE,
};
