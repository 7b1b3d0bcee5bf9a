use std::time::Duration;

use fuiz::fuiz::config::{Fuiz, SlideConfig, TextOrMedia};
use fuiz::fuiz::media::{Image, Media};
use fuiz::fuiz::multiple_choice::{self, AnswerChoice, AnswerMode};
use fuiz::fuiz::order::{self, AxisLabels};
use fuiz::fuiz::type_answer;
use fuiz::game::{Options, TeamOptions};
use fuiz::names::NameStyle;
use fuiz::settings::{Invalid, QuestionSettings, Settings};

fn choices() -> multiple_choice::SlideConfig {
    multiple_choice::SlideConfig {
        title: "Which?".to_string(),
        media: None,
        introduce_slide: Some(Duration::from_secs(3)),
        introduce_question: Some(Duration::from_secs(5)),
        time_limit: Some(Duration::from_secs(30)),
        points_awarded: 1000,
        answers: vec![AnswerChoice { correct: true, content: TextOrMedia::Text("This".to_string()) }],
        answer_mode: AnswerMode::SingleAnswer,
    }
}

fn typed() -> type_answer::SlideConfig {
    type_answer::SlideConfig {
        title: "What?".to_string(),
        media: None,
        introduce_slide: None,
        introduce_question: None,
        time_limit: None,
        points_awarded: 1000,
        answers: vec!["That".to_string()],
        case_sensitive: false,
    }
}

fn ordered() -> order::SlideConfig {
    order::SlideConfig {
        title: "How?".to_string(),
        media: None,
        introduce_question: None,
        time_limit: None,
        points_awarded: 1000,
        answers: vec!["So".to_string(), "Thus".to_string()],
        axis_labels: AxisLabels { from: None, to: None },
    }
}

fn picture(id: &str, alt: &str) -> Media {
    Media::Image(Image::Corkboard { id: id.to_string(), alt: alt.to_string() })
}

#[test]
fn problems_are_told_in_words() {
    assert_eq!(Invalid::Length.message(), "length is out of bounds");
    assert_eq!(Invalid::Range.message(), "number is out of bounds");
    assert_eq!(Invalid::OutOfBounds { min: 5, max: 240 }.message(), "outside of bounds [5,240]");
}

#[test]
fn times_are_held_to_their_bounds() {
    let question = QuestionSettings::default();
    let bounds = Invalid::OutOfBounds { min: 5, max: 240 };
    assert_eq!(question.validate_time_limit(&None), Ok(()));
    assert_eq!(question.validate_time_limit(&Some(Duration::from_millis(4999))), Err(bounds));
    assert_eq!(question.validate_time_limit(&Some(Duration::from_secs(5))), Ok(()));
    assert_eq!(question.validate_time_limit(&Some(Duration::from_secs(240))), Ok(()));
    assert_eq!(question.validate_time_limit(&Some(Duration::from_nanos(240_000_000_001))), Err(bounds));
    assert_eq!(question.validate_time_limit(&Some(Duration::from_millis(240_500))), Err(bounds));
    assert_eq!(question.validate_time_limit(&Some(Duration::from_secs(241))), Err(bounds));
    assert_eq!(question.validate_introduce_question(&Some(Duration::ZERO)), Ok(()));
    assert_eq!(
        question.validate_introduce_question(&Some(Duration::from_millis(240_001))),
        Err(Invalid::OutOfBounds { min: 0, max: 240 })
    );
    let mut wide = question;
    wide.max_introduce_slide = u64::MAX;
    assert_eq!(wide.validate_introduce_slide(&Some(Duration::new(u64::MAX, 0))), Ok(()));
    assert_eq!(
        wide.validate_introduce_slide(&Some(Duration::MAX)),
        Err(Invalid::OutOfBounds { min: 0, max: u64::MAX })
    );
}

#[test]
fn pictures_are_held_to_their_lengths() {
    let corkboard = Settings::default().corkboard;
    assert_eq!(picture("0123456789abcdef", "A cat").validate_with(&corkboard), Ok(()));
    assert_eq!(picture("0123456789abcde", "A cat").validate_with(&corkboard), Err(Invalid::Length));
    assert_eq!(picture("0123456789abcdef", &"a".repeat(200)).validate_with(&corkboard), Ok(()));
    assert_eq!(picture("0123456789abcdef", &"a".repeat(201)).validate_with(&corkboard), Err(Invalid::Length));
}

#[test]
fn multiple_choice_questions_are_held_to_their_limits() {
    let settings = Settings::default();
    assert_eq!(choices().validate_with(&settings), Ok(()));
    let mut question = choices();
    question.title = "a".repeat(501);
    assert_eq!(question.validate_with(&settings), Err(Invalid::Length));
    let mut question = choices();
    question.media = Some(picture("short", ""));
    assert_eq!(question.validate_with(&settings), Err(Invalid::Length));
    let mut question = choices();
    question.introduce_slide = Some(Duration::from_secs(241));
    assert_eq!(question.validate_with(&settings), Err(Invalid::OutOfBounds { min: 0, max: 240 }));
    let mut question = choices();
    question.time_limit = Some(Duration::from_secs(4));
    assert_eq!(question.validate_with(&settings), Err(Invalid::OutOfBounds { min: 5, max: 240 }));
    let mut question = choices();
    question.answers = (0..9)
        .map(|_| AnswerChoice { correct: false, content: TextOrMedia::Text(String::new()) })
        .collect();
    assert_eq!(question.validate_with(&settings), Err(Invalid::Length));
    question.answers.pop();
    assert_eq!(question.validate_with(&settings), Ok(()));
    question.answers[3].content = TextOrMedia::Text("я".repeat(500));
    assert_eq!(question.validate_with(&settings), Ok(()));
    question.answers[3].content = TextOrMedia::Text("a".repeat(501));
    assert_eq!(question.validate_with(&settings), Err(Invalid::Length));
}

#[test]
fn typed_questions_are_held_to_their_limits() {
    let settings = Settings::default();
    assert_eq!(typed().validate_with(&settings), Ok(()));
    let mut question = typed();
    question.answers = vec!["a".to_string(); 17];
    assert_eq!(question.validate_with(&settings), Err(Invalid::Length));
    question.answers.pop();
    assert_eq!(question.validate_with(&settings), Ok(()));
    question.answers[0] = "a".repeat(501);
    assert_eq!(question.validate_with(&settings), Err(Invalid::Length));
}

#[test]
fn questions_about_an_order_are_held_to_their_limits() {
    let settings = Settings::default();
    assert_eq!(ordered().validate_with(&settings), Ok(()));
    let mut question = ordered();
    question.answers = vec!["a".to_string(); 9];
    assert_eq!(question.validate_with(&settings), Err(Invalid::Length));
    let mut question = ordered();
    question.axis_labels.from = Some("a".repeat(251));
    assert_eq!(question.validate_with(&settings), Err(Invalid::Length));
    let mut question = ordered();
    question.axis_labels.to = Some("a".repeat(250));
    assert_eq!(question.validate_with(&settings), Ok(()));
}

#[test]
fn quizzes_are_held_to_their_limits() {
    let settings = Settings::default();
    let mut quiz = Fuiz { title: "é".repeat(500), slides: vec![SlideConfig::MultipleChoice(choices())] };
    assert_eq!(quiz.validate_with(&settings), Ok(()));
    quiz.title.push('e');
    assert_eq!(quiz.validate_with(&settings), Err(Invalid::Length));
    quiz.title.clear();
    quiz.slides.push(SlideConfig::TypeAnswer(typed()));
    quiz.slides.push(SlideConfig::Order(ordered()));
    assert_eq!(quiz.validate_with(&settings), Ok(()));
    let mut question = choices();
    question.time_limit = Some(Duration::ZERO);
    quiz.slides.push(SlideConfig::MultipleChoice(question));
    assert_eq!(quiz.validate_with(&settings), Err(Invalid::OutOfBounds { min: 5, max: 240 }));
    quiz.slides = (0..501).map(|_| SlideConfig::Order(ordered())).collect();
    assert_eq!(quiz.validate_with(&settings), Err(Invalid::Length));
}

#[test]
fn options_are_held_to_their_limits() {
    let settings = Settings::default();
    let mut options = Options::default();
    assert_eq!(options.validate_with(&settings), Ok(()));
    for (words, valid) in [(1, false), (2, true), (3, true), (4, false)] {
        for style in [NameStyle::Roman(words), NameStyle::Petname(words)] {
            options.random_names = Some(style);
            assert_eq!(options.validate_with(&settings).is_ok(), valid);
        }
    }
    options.random_names = None;
    options.teams = Some(TeamOptions { size: 6, assign_random: false });
    assert_eq!(options.validate_with(&settings), Err(Invalid::Range));
}
