use rsanim::StateMachineError;

#[test]
fn state_machine_error_clone() {
    assert_eq!(
        StateMachineError::InvalidStartingState("test".to_string()).clone(),
        StateMachineError::InvalidStartingState("test".to_string())
    );
}

#[test]
fn state_machine_error_debug() {
    assert_eq!(
        format!(
            "{:?}",
            StateMachineError::InvalidStartingState("test".to_string())
        ),
        "InvalidStartingState(\"test\")"
    );
}
