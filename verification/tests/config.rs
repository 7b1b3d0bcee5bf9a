use std::time::Duration;

use fuiz::fuiz::common::{ProceedFromSlideIntoSlide, SlideState as Phase};
use fuiz::fuiz::config::{Fuiz, SlideConfig, SlideState, TextOrMedia};
use fuiz::fuiz::multiple_choice::{self, AnswerChoice, AnswerMode};
use fuiz::fuiz::order::{self, AxisLabels};
use fuiz::fuiz::type_answer;
use fuiz::game::{IncomingHostMessage, IncomingMessage};
use fuiz::leaderboard::Leaderboard;
use fuiz::session::{Effect, Stage, Tunnels};
use fuiz::settings::{AnswerTextSettings, Settings};
use fuiz::time::Timestamp;
use fuiz::watcher::{Id, ValueKind, Watchers};
use fuiz::{AlarmMessage, SyncMessage};

fn create_test_multiple_choice_config() -> SlideConfig {
    SlideConfig::MultipleChoice(multiple_choice::SlideConfig {
        title: "Test Question".to_string(),
        media: None,
        introduce_slide: Some(Duration::from_millis(3000)),
        introduce_question: Some(Duration::from_millis(2)),
        time_limit: Some(Duration::from_millis(30)),
        points_awarded: 1000,
        answers: vec![
            AnswerChoice { correct: true, content: TextOrMedia::Text("Answer A".to_string()) },
            AnswerChoice { correct: false, content: TextOrMedia::Text("Answer B".to_string()) },
        ],
        answer_mode: AnswerMode::default(),
    })
}

fn create_test_type_answer_config() -> SlideConfig {
    SlideConfig::TypeAnswer(type_answer::SlideConfig {
        title: "Test Type Answer".to_string(),
        media: None,
        introduce_slide: Some(Duration::from_millis(3000)),
        introduce_question: Some(Duration::from_millis(2)),
        time_limit: Some(Duration::from_millis(30)),
        points_awarded: 1000,
        answers: vec!["test".to_string(), "TEST".to_string()],
        case_sensitive: false,
    })
}

fn create_test_order_config() -> SlideConfig {
    SlideConfig::Order(order::SlideConfig {
        title: "Test Order".to_string(),
        media: None,
        introduce_question: Some(Duration::from_millis(2)),
        time_limit: Some(Duration::from_millis(30)),
        points_awarded: 1000,
        answers: vec!["First".to_string(), "Second".to_string(), "Third".to_string()],
        axis_labels: AxisLabels { from: Some("Start".to_string()), to: Some("End".to_string()) },
    })
}

fn create_mock_watchers() -> Watchers {
    Watchers::new(1000)
}

fn create_mock_leaderboard() -> Leaderboard {
    Leaderboard::default()
}

fn stage<'a>(watchers: &'a Watchers, tunnels: &'a Tunnels) -> Stage<'a> {
    Stage {
        watchers,
        tunnels,
        team_manager: None,
        now: Timestamp::from_nanos_since_epoch(0),
        index: 0,
        count: 1,
    }
}

#[test]
fn test_slide_config_to_state_multiple_choice() {
    let mc_config = create_test_multiple_choice_config();
    let state = mc_config.to_state();

    match state {
        SlideState::MultipleChoice(_) => {
            // Successfully created MultipleChoice state
        }
        _ => panic!("Expected MultipleChoice state"),
    }
}

#[test]
fn test_slide_config_to_state_type_answer() {
    let ta_config = create_test_type_answer_config();
    let state = ta_config.to_state();

    match state {
        SlideState::TypeAnswer(_) => {
            // Successfully created TypeAnswer state
        }
        _ => panic!("Expected TypeAnswer state"),
    }
}

#[test]
fn test_slide_config_to_state_order() {
    let order_config = create_test_order_config();
    let state = order_config.to_state();

    match state {
        SlideState::Order(_) => {
            // Successfully created Order state
        }
        _ => panic!("Expected Order state"),
    }
}

#[test]
fn test_slide_state_play_multiple_choice() {
    let mc_config = create_test_multiple_choice_config();
    let mut state = mc_config.to_state();
    let watchers = create_mock_watchers();
    let tunnels = Tunnels::new();

    let effects = state.play(&stage(&watchers, &tunnels));

    // Verify play was called successfully (schedule message was triggered)
    assert!(effects.iter().any(|effect| matches!(effect, Effect::Schedule { .. })));
}

#[test]
fn test_slide_state_play_type_answer() {
    let ta_config = create_test_type_answer_config();
    let mut state = ta_config.to_state();
    let watchers = create_mock_watchers();
    let tunnels = Tunnels::new();

    let effects = state.play(&stage(&watchers, &tunnels));

    // Verify play was called successfully (schedule message was triggered)
    assert!(effects.iter().any(|effect| matches!(effect, Effect::Schedule { .. })));
}

#[test]
fn test_slide_state_play_order() {
    let order_config = create_test_order_config();
    let mut state = order_config.to_state();
    let watchers = create_mock_watchers();
    let tunnels = Tunnels::new();

    let effects = state.play(&stage(&watchers, &tunnels));

    // Verify play was called successfully (schedule message was triggered)
    assert!(effects.iter().any(|effect| matches!(effect, Effect::Schedule { .. })));
}

#[test]
fn test_slide_state_receive_message_multiple_choice() {
    let mc_config = create_test_multiple_choice_config();
    let mut state = mc_config.to_state();
    let watchers = create_mock_watchers();
    let tunnels = Tunnels::new();
    let mut leaderboard = create_mock_leaderboard();
    let message = IncomingMessage::Host(IncomingHostMessage::Next);

    let _result = state.receive_message(Id::new(), message, &mut leaderboard, &stage(&watchers, &tunnels));

    // Verify the message was processed (result may be true or false depending on message processing)
    // The important thing is that the method was called without panicking
}

#[test]
fn test_slide_state_receive_message_type_answer() {
    let ta_config = create_test_type_answer_config();
    let mut state = ta_config.to_state();
    let watchers = create_mock_watchers();
    let tunnels = Tunnels::new();
    let mut leaderboard = create_mock_leaderboard();
    let message = IncomingMessage::Host(IncomingHostMessage::Next);

    let _result = state.receive_message(Id::new(), message, &mut leaderboard, &stage(&watchers, &tunnels));

    // Verify the message was processed (result may be true or false depending on message processing)
    // The important thing is that the method was called without panicking
}

#[test]
fn test_slide_state_receive_message_order() {
    let order_config = create_test_order_config();
    let mut state = order_config.to_state();
    let watchers = create_mock_watchers();
    let tunnels = Tunnels::new();
    let mut leaderboard = create_mock_leaderboard();
    let message = IncomingMessage::Host(IncomingHostMessage::Next);

    let _result = state.receive_message(Id::new(), message, &mut leaderboard, &stage(&watchers, &tunnels));

    // Verify the message was processed (result may be true or false depending on message processing)
    // The important thing is that the method was called without panicking
}

#[test]
fn test_slide_state_state_message_multiple_choice() {
    let mc_config = create_test_multiple_choice_config();
    let state = mc_config.to_state();
    let watchers = create_mock_watchers();
    let tunnels = Tunnels::new();

    let message = state.state_message(Id::new(), ValueKind::Player, &stage(&watchers, &tunnels));

    match message {
        SyncMessage::MultipleChoice(_) => {}
        _ => panic!("Expected MultipleChoice sync message"),
    }
}

#[test]
fn test_slide_state_state_message_type_answer() {
    let ta_config = create_test_type_answer_config();
    let state = ta_config.to_state();
    let watchers = create_mock_watchers();
    let tunnels = Tunnels::new();

    let message = state.state_message(Id::new(), ValueKind::Player, &stage(&watchers, &tunnels));

    match message {
        SyncMessage::TypeAnswer(_) => {}
        _ => panic!("Expected TypeAnswer sync message"),
    }
}

#[test]
fn test_slide_state_state_message_order() {
    let order_config = create_test_order_config();
    let state = order_config.to_state();
    let watchers = create_mock_watchers();
    let tunnels = Tunnels::new();

    let message = state.state_message(Id::new(), ValueKind::Player, &stage(&watchers, &tunnels));

    match message {
        SyncMessage::Order(_) => {}
        _ => panic!("Expected Order sync message"),
    }
}

#[test]
fn test_fuiz_len_and_is_empty() {
    let empty_fuiz = Fuiz {
        title: "Empty".to_string(),
        slides: vec![],
    };
    assert_eq!(empty_fuiz.len(), 0);
    assert!(empty_fuiz.is_empty());

    let fuiz_with_slides = Fuiz {
        title: "With Slides".to_string(),
        slides: vec![create_test_multiple_choice_config(), create_test_type_answer_config()],
    };
    assert_eq!(fuiz_with_slides.len(), 2);
    assert!(!fuiz_with_slides.is_empty());
}

#[test]
fn test_text_or_media_validation() {
    // Valid text
    let valid_text = TextOrMedia::Text("Valid text".to_string());
    assert!(valid_text.validate_with(&Settings::default()).is_ok());

    // Text too long
    let long_text = TextOrMedia::Text("x".repeat(AnswerTextSettings::default().max_length + 1));
    assert!(long_text.validate_with(&Settings::default()).is_err());
}

#[test]
fn test_slide_state_receive_alarm_type_answer() {
    let ta_config = create_test_type_answer_config();
    let mut state = ta_config.to_state();
    let watchers = create_mock_watchers();
    let tunnels = Tunnels::new();

    let alarm_message = AlarmMessage::TypeAnswer(ProceedFromSlideIntoSlide {
        index: 0,
        to: Phase::Question,
    });

    let _result = state.receive_alarm(&alarm_message, &stage(&watchers, &tunnels));

    // Test completed successfully - receive_alarm was called on TypeAnswer variant
}

#[test]
fn test_slide_state_receive_alarm_order() {
    let order_config = create_test_order_config();
    let mut state = order_config.to_state();
    let watchers = create_mock_watchers();
    let tunnels = Tunnels::new();

    let alarm_message = AlarmMessage::Order(ProceedFromSlideIntoSlide {
        index: 0,
        to: Phase::Question,
    });

    let _result = state.receive_alarm(&alarm_message, &stage(&watchers, &tunnels));

    // Test completed successfully - receive_alarm was called on Order variant
}

#[test]
fn test_slide_state_receive_alarm_multiple_choice() {
    let mc_config = create_test_multiple_choice_config();
    let mut state = mc_config.to_state();
    let watchers = create_mock_watchers();
    let tunnels = Tunnels::new();

    let alarm_message = AlarmMessage::MultipleChoice(ProceedFromSlideIntoSlide {
        index: 0,
        to: Phase::Question,
    });

    let _result = state.receive_alarm(&alarm_message, &stage(&watchers, &tunnels));

    // Test completed successfully - receive_alarm was called on MultipleChoice variant
}
