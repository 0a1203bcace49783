use rsanim::{Always, Transition, TransitionEndState, TransitionStartState, TransitionTrigger};

#[test]
fn transition_clone() {
    let transition = Transition {
        start_state: TransitionStartState::<String>::Any,
        end_state: TransitionEndState::Node("test".to_string()),
        trigger: TransitionTrigger::<Always>::End,
    };

    assert_eq!(
        format!("{:?}", transition.clone()),
        format!("{:?}", transition)
    );
}

#[test]
fn transition_debug() {
    let transition = Transition {
        start_state: TransitionStartState::<String>::Any,
        end_state: TransitionEndState::Node("test".to_string()),
        trigger: TransitionTrigger::<Always>::End,
    };

    assert_eq!(
        format!("{:?}", transition),
        "Transition { start_state: Any, end_state: Node(\"test\"), trigger: End }"
    );
}
