use std::time::Duration;

use fuiz::settings::QuestionSettings;

#[test]
fn validate_introduce_slide_bounds() {
    let question = QuestionSettings::default();

    // Host-paced (no auto-advance) is always valid.
    assert!(question.validate_introduce_slide(&None).is_ok());
    // Within the default [0, 240] bounds.
    assert!(question.validate_introduce_slide(&Some(Duration::ZERO)).is_ok());
    assert!(question.validate_introduce_slide(&Some(Duration::from_secs(3))).is_ok());
    assert!(
        question
            .validate_introduce_slide(&Some(Duration::from_secs(question.max_introduce_slide)))
            .is_ok()
    );
    // Beyond the maximum is rejected.
    assert!(
        question
            .validate_introduce_slide(&Some(Duration::from_secs(question.max_introduce_slide + 1)))
            .is_err()
    );
}
