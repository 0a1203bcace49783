use rsanim::{Always, State, StateKey, StateMachine, StateMachineError, Transition, Trigger};

#[derive(Clone, Copy, Eq, PartialEq, Hash, Debug)]
enum Animation {
    Idle,
    Walk,
}

impl StateKey for Animation {
    fn eq_key(&self, other: &Self) -> bool {
        self == other
    }

    fn duplicate(&self) -> Self {
        *self
    }
}

#[derive(Clone, Debug, PartialEq)]
struct Params {
    pub speed: f32,
    pub jump: bool,
}

#[test]
fn sm_new() {
    StateMachine::<Animation, Params, Always>::new(
        Animation::Idle,
        vec![(
            Animation::Idle,
            State {
                duration: 500,
                repeat: true,
            },
        )],
        vec![],
        Params {
            speed: 0.0,
            jump: false,
        },
    )
    .unwrap();
}

#[test]
fn sm_new_invalid_starting_state() {
    let err = StateMachine::<Animation, Params, Always>::new(
        Animation::Walk,
        vec![(
            Animation::Idle,
            State {
                duration: 500,
                repeat: true,
            },
        )],
        vec![],
        Params {
            speed: 0.0,
            jump: false,
        },
    )
    .expect_err("invalid starting state");

    assert_eq!(
        err,
        StateMachineError::InvalidStartingState(Animation::Walk)
    );
}

#[test]
fn sm_new_invalid_transition_start_state() {
    let err = StateMachine::new(
        Animation::Idle,
        vec![(
            Animation::Idle,
            State {
                duration: 500,
                repeat: true,
            },
        )],
        vec![Transition {
            start_state: rsanim::TransitionStartState::Node(Animation::Walk),
            end_state: rsanim::TransitionEndState::Node(Animation::Idle),
            trigger: Trigger::<Always>::End,
        }],
        Params {
            speed: 0.0,
            jump: false,
        },
    )
    .expect_err("invalid transition start state");

    assert_eq!(
        err,
        StateMachineError::InvalidTransitionStartState(Animation::Walk)
    );
}

#[test]
fn sm_new_invalid_transition_end_state() {
    let err = StateMachine::new(
        Animation::Idle,
        vec![(
            Animation::Idle,
            State {
                duration: 500,
                repeat: true,
            },
        )],
        vec![Transition {
            start_state: rsanim::TransitionStartState::Node(Animation::Idle),
            end_state: rsanim::TransitionEndState::Node(Animation::Walk),
            trigger: Trigger::<Always>::End,
        }],
        Params {
            speed: 0.0,
            jump: false,
        },
    )
    .expect_err("invalid transition end state");

    assert_eq!(
        err,
        StateMachineError::InvalidTransitionEndState(Animation::Walk)
    );
}
