use rsanim::{Always, Animator, AnimatorError, Frame, State, StateKey, StateMachine};

#[derive(Clone, Eq, PartialEq, Hash, Debug)]
struct Key(String);

impl StateKey for Key {
    fn eq_key(&self, other: &Self) -> bool {
        self.0 == other.0
    }

    fn duplicate(&self) -> Self {
        Key(self.0.clone())
    }
}

#[derive(Clone, Debug, PartialEq)]
struct Params {
    pub speed: f32,
    pub jump: bool,
}

fn create_sm() -> StateMachine<Key, Params, Always> {
    StateMachine::new(
        Key("idle".to_string()),
        vec![(
            Key("idle".to_string()),
            State {
                duration: 500,
                repeat: true,
            },
        )],
        vec![],
        Params {
            speed: 1.0,
            jump: false,
        },
    )
    .unwrap()
}

#[test]
fn animator_new() {
    Animator::new(
        create_sm(),
        vec![(
            Key("idle".to_string()),
            vec![
                Frame {
                    progress: 0,
                    value: 0,
                },
                Frame {
                    progress: 330,
                    value: 1,
                },
                Frame {
                    progress: 670,
                    value: 2,
                },
            ],
        )],
    )
    .unwrap();
}

#[test]
fn animator_new_empty_state_frames() {
    let err = Animator::<Key, Params, u8, Always>::new(
        create_sm(),
        vec![(Key("idle".to_string()), vec![])],
    )
    .expect_err("empty state frames");

    assert_eq!(
        err,
        AnimatorError::EmptyStateFrames(Key("idle".to_string()))
    );
}

#[test]
fn animator_unsorted_state_frames() {
    let err = Animator::<Key, Params, u8, Always>::new(
        create_sm(),
        vec![(
            Key("idle".to_string()),
            vec![
                Frame {
                    progress: 330,
                    value: 1,
                },
                Frame {
                    progress: 0,
                    value: 0,
                },
                Frame {
                    progress: 670,
                    value: 2,
                },
            ],
        )],
    )
    .expect_err("unsorted state frames");

    assert_eq!(
        err,
        AnimatorError::UnsortedStateFrames(Key("idle".to_string()))
    );
}

#[test]
fn animator_invalid_state_frame_progress() {
    let err = Animator::<Key, Params, u8, Always>::new(
        create_sm(),
        vec![(
            Key("idle".to_string()),
            vec![Frame {
                progress: 1330,
                value: 1,
            }],
        )],
    )
    .expect_err("invalid state frame progress");

    assert_eq!(
        err,
        AnimatorError::InvalidStateFrameProgress(Key("idle".to_string()), 1330)
    );
}

#[test]
fn animator_new_missing_state_frames() {
    let err = Animator::<Key, Params, u8, Always>::new(create_sm(), vec![])
        .expect_err("missing state frames");

    assert_eq!(
        err,
        AnimatorError::MissingStateFrames(Key("idle".to_string()))
    );
}
