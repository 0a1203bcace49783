use rsanim::AnimatorError;

#[test]
fn animator_error_clone() {
    let error = AnimatorError::EmptyStateFrames("test".to_string());

    assert_eq!(format!("{:?}", error.clone()), format!("{:?}", error));
}

#[test]
fn animator_error_debug() {
    assert_eq!(
        format!("{:?}", AnimatorError::EmptyStateFrames("test".to_string())),
        "EmptyStateFrames(\"test\")"
    );
}
