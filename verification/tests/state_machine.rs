use rsanim::{Always, State, StateKey, StateMachine};

#[derive(Clone, Copy, Eq, PartialEq, Hash, Debug)]
enum Animation {
    Idle,
}

impl StateKey for Animation {
    fn eq_key(&self, other: &Self) -> bool {
        self == other
    }

    fn duplicate(&self) -> Self {
        *self
    }
}

#[derive(Clone, Debug, PartialEq)]
struct Params {
    pub speed: f32,
    pub jump: bool,
}

fn create_sm() -> StateMachine<Animation, Params, Always> {
    StateMachine::new(
        Animation::Idle,
        vec![(
            Animation::Idle,
            State {
                duration: 500,
                repeat: true,
            },
        )],
        vec![],
        Params {
            speed: 0.0,
            jump: false,
        },
    )
    .unwrap()
}

#[test]
fn state_machine_clone() {
    let sm = create_sm();

    assert_eq!(format!("{:?}", sm.clone()), format!("{:?}", sm));
}

#[test]
fn state_machine_debug() {
    let sm = create_sm();

    assert_eq!(
        format!("{:?}", sm),
        "StateMachine { current_state: CurrentState { key: Idle, duration: 500, elapsed: 0, repeat: true }, states: [(Idle, State { duration: 500, repeat: true })], transitions: [], parameters: Params { speed: 0.0, jump: false } }"
    );
}
