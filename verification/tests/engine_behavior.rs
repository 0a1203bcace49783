use rsanim::{
    Always, State, StateKey, StateMachine, Transition, TransitionEndState, TransitionStartState,
    TransitionTrigger,
};

fn repeat_state(duration: u64) -> State {
    State {
        duration,
        repeat: true,
    }
}

fn once_state(duration: u64) -> State {
    State {
        duration,
        repeat: false,
    }
}

fn rule_always(from: u32, to: u32) -> Transition<u32, Always> {
    Transition {
        start_state: TransitionStartState::Node(from),
        end_state: TransitionEndState::Node(to),
        trigger: TransitionTrigger::Condition(Always),
    }
}

fn rule_end(from: u32, to: u32) -> Transition<u32, Always> {
    Transition {
        start_state: TransitionStartState::Node(from),
        end_state: TransitionEndState::Node(to),
        trigger: TransitionTrigger::End,
    }
}

#[test]
fn integer_keys_compare_and_copy() {
    assert!(1u32.eq_key(&1u32));
    assert!(!1u32.eq_key(&2u32));
    assert_eq!(7u64.duplicate(), 7u64);
    assert_eq!(9usize.duplicate(), 9usize);
    assert_eq!((-3i64).duplicate(), -3i64);
    assert!((-3i64).eq_key(&-3i64));
}

#[test]
fn repeat_wraps_by_total_time() {
    let mut sm = StateMachine::<u32, (), Always>::new(
        1,
        vec![(1, repeat_state(500))],
        vec![],
        (),
    )
    .unwrap();

    sm.update(700);
    assert_eq!(sm.state().elapsed, 200);

    sm.update(600);
    assert_eq!(sm.state().elapsed, 300);

    sm.update(1200);
    assert_eq!(sm.state().elapsed, 0);
}

#[test]
fn non_repeat_clamps_and_stays_finished() {
    let mut sm = StateMachine::<u32, (), Always>::new(
        1,
        vec![(1, once_state(250))],
        vec![],
        (),
    )
    .unwrap();

    sm.update(400);
    assert_eq!(sm.state().elapsed, 250);
    assert!(sm.state().finished());

    sm.update(10_000);
    assert_eq!(sm.state().elapsed, 250);
    assert!(sm.state().finished());
}

#[test]
fn self_transitions_are_never_taken() {
    let mut sm = StateMachine::new(
        1,
        vec![(1, repeat_state(500)), (2, repeat_state(500))],
        vec![
            rule_always(1, 1),
            Transition {
                start_state: TransitionStartState::Any,
                end_state: TransitionEndState::Node(1),
                trigger: TransitionTrigger::<Always>::End,
            },
        ],
        (),
    )
    .unwrap();

    sm.update(750);
    assert_eq!(sm.state().key, 1);

    sm.update_parameters(|p: &()| *p);
    assert_eq!(sm.state().key, 1);
}

#[test]
fn cycle_stops_after_one_extra_hop() {
    let mut sm = StateMachine::new(
        1,
        vec![(1, repeat_state(500)), (2, repeat_state(500))],
        vec![rule_always(1, 2), rule_always(2, 1)],
        (),
    )
    .unwrap();

    sm.update_parameters(|p: &()| *p);

    // The first hop enters state 2; the chain then hops back to state 1,
    // where the visited-set guard stops further movement.
    assert_eq!(sm.state().key, 1);
    assert_eq!(sm.state().elapsed, 0);
}

#[test]
fn chain_passes_through_zero_duration_state() {
    let mut sm = StateMachine::new(
        1,
        vec![
            (1, repeat_state(500)),
            (2, once_state(0)),
            (3, repeat_state(1000)),
        ],
        vec![rule_end(1, 2), rule_end(2, 3)],
        (),
    )
    .unwrap();

    sm.update(500);

    assert_eq!(sm.state().key, 3);
    assert_eq!(sm.state().elapsed, 0);
    assert_eq!(sm.state().duration, 1000);
}

#[test]
fn no_transition_check_while_unfinished() {
    let mut sm = StateMachine::new(
        1,
        vec![(1, once_state(500)), (2, repeat_state(500))],
        vec![rule_end(1, 2)],
        (),
    )
    .unwrap();

    sm.update(499);
    assert_eq!(sm.state().key, 1);

    sm.update(1);
    assert_eq!(sm.state().key, 2);
}

#[test]
fn end_rules_fire_only_at_completion_tick() {
    let mut sm = StateMachine::<u32, (), Always>::new(
        1,
        vec![(1, once_state(100)), (2, repeat_state(100))],
        vec![],
        (),
    )
    .unwrap();

    // Finish state 1 with no rule to take; the machine stays finished.
    sm.update(150);
    assert_eq!(sm.state().key, 1);
    assert!(sm.state().finished());

    // A later parameter change considers only condition rules, so nothing
    // moves either.
    sm.update_parameters(|p: &()| *p);
    assert_eq!(sm.state().key, 1);
}
