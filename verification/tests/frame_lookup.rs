use rsanim::{Always, Animator, Frame, State, StateKey, StateMachine, PROGRESS_SCALE};

#[derive(Clone, Eq, PartialEq, Hash, Debug)]
struct Key(String);

impl StateKey for Key {
    fn eq_key(&self, other: &Self) -> bool {
        self.0 == other.0
    }

    fn duplicate(&self) -> Self {
        Key(self.0.clone())
    }
}

fn key(name: &str) -> Key {
    Key(name.to_string())
}

fn frame(progress: u32, value: u8) -> Frame<u8> {
    Frame { progress, value }
}

fn create_animator() -> Animator<Key, (), u8, Always> {
    Animator::new(
        StateMachine::new(
            key("idle"),
            vec![(
                key("idle"),
                State {
                    duration: 500,
                    repeat: true,
                },
            )],
            vec![],
            (),
        )
        .unwrap(),
        vec![(
            key("idle"),
            vec![frame(0, 10), frame(330, 20), frame(670, 30)],
        )],
    )
    .unwrap()
}

#[test]
fn frame_for_holds_greatest_threshold() {
    let animator = create_animator();

    assert_eq!(animator.frame_for(&key("idle"), 0, 1000), 10);
    assert_eq!(animator.frame_for(&key("idle"), 400, 1000), 20);
    assert_eq!(animator.frame_for(&key("idle"), 900, 1000), 30);
}

#[test]
fn frame_for_exact_thresholds() {
    let animator = create_animator();

    assert_eq!(animator.frame_for(&key("idle"), 330, 1000), 20);
    assert_eq!(animator.frame_for(&key("idle"), 329, 1000), 10);
    assert_eq!(animator.frame_for(&key("idle"), 670, 1000), 30);
    assert_eq!(animator.frame_for(&key("idle"), 1000, 1000), 30);
}

#[test]
fn frame_follows_machine_progress() {
    let mut animator = create_animator();

    assert_eq!(animator.frame(), 10);

    animator.update(200);
    assert_eq!(animator.frame(), 20);

    animator.update(150);
    assert_eq!(animator.frame(), 30);

    animator.update(150);
    assert_eq!(animator.frame(), 10);
}

#[test]
fn frame_for_is_monotonic_in_progress() {
    let animator = create_animator();

    let mut last: u8 = 0;
    let mut num: u64 = 0;
    while num <= 1000 {
        let value = animator.frame_for(&key("idle"), num, 1000);
        assert!(value >= last);
        last = value;
        num += 10;
    }
}

#[test]
fn boundary_threshold_is_accepted() {
    let animator = Animator::new(
        StateMachine::<Key, (), Always>::new(
            key("idle"),
            vec![(
                key("idle"),
                State {
                    duration: 500,
                    repeat: false,
                },
            )],
            vec![],
            (),
        )
        .unwrap(),
        vec![(key("idle"), vec![frame(0, 1), frame(PROGRESS_SCALE, 9)])],
    )
    .unwrap();

    assert_eq!(animator.frame_for(&key("idle"), 500, 500), 9);
    assert_eq!(animator.frame_for(&key("idle"), 499, 500), 1);
}

#[test]
fn animator_drives_machine_state() {
    let mut animator = create_animator();

    assert_eq!(animator.state(), key("idle"));
    assert_eq!(animator.parameters(), &());

    animator.update_parameters(|p: &()| *p);
    assert_eq!(animator.state(), key("idle"));
}
