use std::time::Duration;

use fuiz::fuiz::common::{
    correct_count, receive_message, round_scores, AnswerHandler, Multiplier, ProceedFromSlideIntoSlide, SlideState,
};
use fuiz::fuiz::config::{SlideAction, TextOrMedia};
use fuiz::fuiz::multiple_choice::{self, AnswerChoice, AnswerChoiceResult, AnswerMode, PossiblyHidden};
use fuiz::fuiz::order::{self, AxisLabels};
use fuiz::fuiz::type_answer::{self, clean_answer};
use fuiz::game::{IncomingHostMessage, IncomingMessage, IncomingPlayerMessage};
use fuiz::leaderboard::{Leaderboard, ScoreMessage};
use fuiz::session::{Audience, Effect, Stage, Tunnels};
use fuiz::time::Timestamp;
use fuiz::watcher::{Id, PlayerValue, Value, ValueKind, Watchers};
use fuiz::{AlarmMessage, UpdateMessage};

const HOST: Id = Id(1);
const ANN: Id = Id(2);
const BEN: Id = Id(3);

fn crowd() -> (Watchers, Tunnels) {
    let mut watchers = Watchers::with_host_id(HOST, 10);
    let mut tunnels = Tunnels::new();
    tunnels.insert(HOST);
    for id in [ANN, BEN] {
        assert!(watchers.add_watcher(id, Value::Player(PlayerValue::Individual)).is_ok());
        tunnels.insert(id);
    }
    (watchers, tunnels)
}

fn stage<'a>(watchers: &'a Watchers, tunnels: &'a Tunnels, seconds: u64) -> Stage<'a> {
    Stage {
        watchers,
        tunnels,
        team_manager: None,
        now: Timestamp::after_epoch(Duration::from_secs(seconds)),
        index: 4,
        count: 9,
    }
}

fn choices(answer_mode: AnswerMode, introduce_slide: u64, introduce_question: u64) -> multiple_choice::State {
    let texts = [("A", true), ("B", false), ("C", true), ("D", false)];
    multiple_choice::SlideConfig {
        title: "Which?".to_string(),
        media: None,
        introduce_slide: Some(Duration::from_secs(introduce_slide)),
        introduce_question: Some(Duration::from_secs(introduce_question)),
        time_limit: Some(Duration::from_secs(10)),
        points_awarded: 1000,
        answers: texts
            .iter()
            .map(|(text, correct)| AnswerChoice { correct: *correct, content: TextOrMedia::Text(text.to_string()) })
            .collect(),
        answer_mode,
    }
    .to_state()
}

fn typed(case_sensitive: bool) -> type_answer::State {
    type_answer::SlideConfig {
        title: "What?".to_string(),
        media: None,
        introduce_slide: Some(Duration::ZERO),
        introduce_question: Some(Duration::ZERO),
        time_limit: None,
        points_awarded: 1000,
        answers: vec!["Paris".to_string(), " paris ".to_string(), "Lutetia".to_string()],
        case_sensitive,
    }
    .to_state()
}

fn ordered() -> order::State {
    order::SlideConfig {
        title: "In which order?".to_string(),
        media: None,
        introduce_question: Some(Duration::ZERO),
        time_limit: None,
        points_awarded: 600,
        answers: (1..=8).map(|i| i.to_string()).collect(),
        axis_labels: AxisLabels { from: Some("few".to_string()), to: Some("many".to_string()) },
    }
    .to_state()
}

fn host_next() -> IncomingMessage {
    IncomingMessage::Host(IncomingHostMessage::Next)
}

fn player(message: IncomingPlayerMessage) -> IncomingMessage {
    IncomingMessage::Player(message)
}

fn visible(answers: &[PossiblyHidden<TextOrMedia>]) -> Vec<bool> {
    answers.iter().map(|answer| matches!(answer, PossiblyHidden::Visible(_))).collect()
}

#[test]
fn a_slide_passes_through_its_phases_by_alarm() {
    let (watchers, tunnels) = crowd();
    let mut slide = choices(AnswerMode::SingleAnswer, 3, 5);

    let effects = slide.play(&stage(&watchers, &tunnels, 0));
    assert_eq!(slide.core.state, SlideState::Unstarted);
    assert!(matches!(
        &effects[0],
        Effect::Send {
            to: Audience::Everyone,
            message: UpdateMessage::MultipleChoice(multiple_choice::UpdateMessage::SlideAnnouncement {
                index: 4,
                count: 9,
                points_awarded: 1000,
                ..
            }),
        }
    ));
    let asked = AlarmMessage::MultipleChoice(ProceedFromSlideIntoSlide { index: 4, to: SlideState::Question });
    assert!(matches!(&effects[1], Effect::Schedule { alarm, after } if *alarm == asked && *after == Duration::from_secs(3)));

    let early = AlarmMessage::MultipleChoice(ProceedFromSlideIntoSlide { index: 4, to: SlideState::Answers });
    let (action, effects) = slide.receive_alarm(&early, &stage(&watchers, &tunnels, 1));
    assert!(matches!(action, SlideAction::Stay));
    assert!(effects.is_empty());
    assert_eq!(slide.core.state, SlideState::Unstarted);

    let (_, effects) = slide.receive_alarm(&asked, &stage(&watchers, &tunnels, 3));
    assert_eq!(slide.core.state, SlideState::Question);
    assert!(matches!(&effects[1], Effect::Schedule { alarm, after } if *alarm == early && *after == Duration::from_secs(5)));

    let (_, effects) = slide.receive_alarm(&early, &stage(&watchers, &tunnels, 8));
    assert_eq!(slide.core.state, SlideState::Answers);
    assert_eq!(effects.len(), 4);
    assert!(matches!(&effects[0], Effect::Send { to: Audience::One(HOST), .. }));

    let over = AlarmMessage::MultipleChoice(ProceedFromSlideIntoSlide { index: 4, to: SlideState::AnswersResults });
    assert!(matches!(&effects[3], Effect::Schedule { alarm, after } if *alarm == over && *after == Duration::from_secs(10)));
    let (_, effects) = slide.receive_alarm(&over, &stage(&watchers, &tunnels, 18));
    assert_eq!(slide.core.state, SlideState::AnswersResults);
    assert_eq!(effects.len(), 1);

    let (_, effects) = slide.receive_alarm(&over, &stage(&watchers, &tunnels, 19));
    assert!(effects.is_empty());
}

#[test]
fn a_slide_without_introductions_starts_with_the_answers() {
    let (watchers, tunnels) = crowd();
    let mut slide = choices(AnswerMode::SingleAnswer, 0, 0);
    let effects = slide.play(&stage(&watchers, &tunnels, 0));
    assert_eq!(slide.core.state, SlideState::Answers);
    assert_eq!(effects.len(), 6);
}

#[test]
fn the_host_moves_a_slide_on_and_past_its_end() {
    let (watchers, tunnels) = crowd();
    let mut slide = choices(AnswerMode::SingleAnswer, 3, 5);
    let mut leaderboard = Leaderboard::new();
    slide.play(&stage(&watchers, &tunnels, 0));
    for phase in [SlideState::Question, SlideState::Answers, SlideState::AnswersResults] {
        let (action, _) =
            receive_message(&mut slide, HOST, host_next(), &mut leaderboard, &stage(&watchers, &tunnels, 1));
        assert!(matches!(action, SlideAction::Stay));
        assert_eq!(slide.core.state, phase);
        assert_eq!(leaderboard.score(ANN), None);
    }
    let (action, effects) =
        receive_message(&mut slide, HOST, host_next(), &mut leaderboard, &stage(&watchers, &tunnels, 1));
    assert!(matches!(action, SlideAction::Next));
    assert!(effects.is_empty());
    assert_eq!(leaderboard.score(ANN), Some(ScoreMessage { points: 0, position: 0 }));
}

#[test]
fn correct_and_quick_answers_earn_points() {
    let (watchers, tunnels) = crowd();
    let mut slide = choices(AnswerMode::SingleAnswer, 0, 0);
    let mut leaderboard = Leaderboard::new();
    slide.play(&stage(&watchers, &tunnels, 100));
    let answer = player(IncomingPlayerMessage::IndexAnswer(2));
    let (_, effects) = receive_message(&mut slide, ANN, answer, &mut leaderboard, &stage(&watchers, &tunnels, 105));
    assert!(matches!(
        effects[..],
        [Effect::Send {
            to: Audience::Kind(ValueKind::Host),
            message: UpdateMessage::MultipleChoice(multiple_choice::UpdateMessage::AnswersCount(1)),
        }]
    ));
    let answer = player(IncomingPlayerMessage::IndexAnswer(1));
    let (_, effects) = receive_message(&mut slide, BEN, answer, &mut leaderboard, &stage(&watchers, &tunnels, 106));
    assert_eq!(slide.core.state, SlideState::AnswersResults);
    assert!(matches!(effects[..], [Effect::Send { to: Audience::Everyone, .. }]));

    assert_eq!(
        slide.per_index_answer_counts(),
        vec![
            AnswerChoiceResult { correct: true, count: 0 },
            AnswerChoiceResult { correct: false, count: 1 },
            AnswerChoiceResult { correct: true, count: 1 },
            AnswerChoiceResult { correct: false, count: 0 },
        ]
    );
    assert_eq!(correct_count(&slide), 1);
    let mut scores = round_scores(&slide, &stage(&watchers, &tunnels, 110));
    scores.sort();
    assert_eq!(scores, vec![(ANN, 750), (BEN, 0)]);
}

#[test]
fn correct_count_filters_via_is_correct_answer() {
    let mut slide = choices(AnswerMode::SingleAnswer, 0, 0);
    let now = Timestamp::from_nanos_since_epoch(0);
    for choice in [0, 1, 2, 3] {
        slide.book.record_answer(Id::new(), vec![choice], now);
    }

    assert_eq!(correct_count(&slide), 2);
}

#[test]
fn answer_counts_groups_by_answer_value() {
    let mut slide = typed(false);
    let now = Timestamp::from_nanos_since_epoch(0);
    for answer in ["true", "true", "true", "false"] {
        slide.book.record_answer(Id::new(), answer.to_string(), now);
    }

    let counts = slide.answer_counts();
    assert!(counts.contains(&("true".to_string(), 3)));
    assert!(counts.contains(&("false".to_string(), 1)));
    assert_eq!(counts.len(), 2);
}

#[test]
fn score_multiplier_defaults_to_binary_correctness() {
    let slide = choices(AnswerMode::SingleAnswer, 0, 0);
    assert_eq!(slide.score_multiplier(&vec![0]), Multiplier { numerator: 1, denominator: 1 });
    assert_eq!(slide.score_multiplier(&vec![1]), Multiplier { numerator: 0, denominator: 1 });
}

#[test]
fn several_choices_earn_a_part_of_the_points() {
    let slide = choices(AnswerMode::MultipleAnswers, 0, 0);
    let points = |answer: Vec<usize>| slide.config.compute_score_multiplier(&answer).apply(1000);
    assert_eq!(points(vec![0, 2]), 1000);
    assert_eq!(points(vec![0]), 500);
    assert_eq!(points(vec![0, 2, 1]), 500);
    assert_eq!(points(vec![0, 1]), 0);
    assert_eq!(points(vec![1, 3]), 0);
    assert_eq!(points(vec![]), 0);
    assert!(slide.is_correct_answer(&vec![0]));
    assert!(!slide.is_correct_answer(&vec![0, 1]));
}

#[test]
fn answers_that_cannot_be_given_are_not_taken() {
    let (watchers, tunnels) = crowd();
    let mut leaderboard = Leaderboard::new();
    let mut single = choices(AnswerMode::SingleAnswer, 0, 0);
    let mut several = choices(AnswerMode::MultipleAnswers, 0, 0);
    let refused = [
        IncomingPlayerMessage::IndexAnswer(4),
        IncomingPlayerMessage::IndexArrayAnswer(vec![0]),
        IncomingPlayerMessage::StringAnswer("A".to_string()),
    ];
    for message in refused {
        let surroundings = stage(&watchers, &tunnels, 0);
        let (_, effects) = receive_message(&mut single, ANN, player(message), &mut leaderboard, &surroundings);
        assert!(effects.is_empty());
    }
    assert!(single.book.user_answers.is_empty());
    for indices in [vec![], vec![0, 4], vec![0, 0]] {
        let message = player(IncomingPlayerMessage::IndexArrayAnswer(indices));
        let surroundings = stage(&watchers, &tunnels, 0);
        let (_, effects) = receive_message(&mut several, ANN, message, &mut leaderboard, &surroundings);
        assert!(effects.is_empty());
    }
    let message = player(IncomingPlayerMessage::IndexArrayAnswer(vec![2, 0]));
    receive_message(&mut several, ANN, message, &mut leaderboard, &stage(&watchers, &tunnels, 0));
    assert_eq!(several.book.user_answers.get(ANN).map(|entry| entry.0.clone()), Some(vec![2, 0]));
}

#[test]
fn a_later_answer_takes_the_place_of_an_earlier_one() {
    let (watchers, tunnels) = crowd();
    let mut leaderboard = Leaderboard::new();
    let mut slide = choices(AnswerMode::SingleAnswer, 0, 0);
    slide.play(&stage(&watchers, &tunnels, 0));
    for (choice, seconds) in [(1, 1), (0, 4)] {
        let message = player(IncomingPlayerMessage::IndexAnswer(choice));
        receive_message(&mut slide, ANN, message, &mut leaderboard, &stage(&watchers, &tunnels, seconds));
    }
    assert_eq!(slide.book.live_answered_count, 1);
    let scores = round_scores(&slide, &stage(&watchers, &tunnels, 9));
    assert!(scores.contains(&(ANN, 800)));
}

#[test]
fn choices_are_dealt_out_in_a_team() {
    let slide = choices(AnswerMode::SingleAnswer, 0, 0);
    let seen = |place: usize| visible(&slide.get_answers_for_player(ValueKind::Player, 2, place, true));
    assert_eq!(seen(0), vec![true, false, true, false]);
    assert_eq!(seen(1), vec![false, true, false, true]);
    let alone = slide.get_answers_for_player(ValueKind::Player, 1, 0, false);
    assert_eq!(visible(&alone), vec![true; 4]);
    assert_eq!(visible(&slide.get_answers_for_player(ValueKind::Host, 1, 0, false)), vec![true; 4]);
    assert_eq!(visible(&slide.get_answers_for_player(ValueKind::Host, 1, 0, true)), vec![false; 4]);
}

#[test]
fn large_teams_share_choices() {
    let slide = choices(AnswerMode::SingleAnswer, 0, 0);
    let seen = |place: usize| visible(&slide.get_answers_for_player(ValueKind::Player, 5, place, true));
    for choice in 0..4 {
        assert!((0..5).any(|place| seen(place)[choice]));
    }
    assert_eq!(seen(0), seen(4));
}

#[test]
fn typed_answers_are_compared_without_blanks() {
    assert_eq!(clean_answer("  PaRis\t", false), "paris");
    assert_eq!(clean_answer("  PaRis\t", true), "PaRis");
    assert_eq!(clean_answer(" \n ", false), "");
    assert_eq!(clean_answer("ÉCOLE", false), "école");
}

#[test]
fn cleaning_an_answer_again_changes_nothing() {
    for answer in ["  PaRis\t", "", " \n ", "a b"] {
        let clean = clean_answer(answer, true);
        assert_eq!(clean_answer(&clean, true), clean);
        assert_eq!(clean_answer(&clean, false), clean_answer(answer, false));
    }
}

#[test]
fn a_host_sees_choices_whatever_the_size_of_a_team() {
    let slide = choices(AnswerMode::SingleAnswer, 0, 0);
    assert_eq!(visible(&slide.get_answers_for_player(ValueKind::Host, 0, 0, false)), vec![true; 4]);
}

#[test]
fn typed_answers_may_differ_in_case() {
    let slide = typed(false);
    assert_eq!(slide.cleaned_answers.len(), 2);
    assert!(slide.is_correct_answer(&clean_answer("PARIS", false)));
    assert!(slide.is_correct_answer(&clean_answer(" lutetia", false)));
    assert!(!slide.is_correct_answer(&clean_answer("London", false)));
    let strict = typed(true);
    assert!(strict.is_correct_answer(&clean_answer(" paris", true)));
    assert!(!strict.is_correct_answer(&clean_answer("PARIS", true)));
}

#[test]
fn typed_answers_are_taken_as_they_come() {
    let (watchers, tunnels) = crowd();
    let mut slide = typed(false);
    let mut leaderboard = Leaderboard::new();
    slide.play(&stage(&watchers, &tunnels, 0));
    assert_eq!(slide.core.state, SlideState::Answers);
    let answer = player(IncomingPlayerMessage::StringAnswer(" PARIS ".to_string()));
    receive_message(&mut slide, ANN, answer, &mut leaderboard, &stage(&watchers, &tunnels, 1));
    assert_eq!(slide.book.user_answers.get(ANN).map(|entry| entry.0.as_str()), Some("paris"));
    let wrong_kind = player(IncomingPlayerMessage::IndexAnswer(0));
    let (_, effects) =
        receive_message(&mut slide, BEN, wrong_kind, &mut leaderboard, &stage(&watchers, &tunnels, 1));
    assert!(effects.is_empty());
    let answer = player(IncomingPlayerMessage::StringAnswer("Rome".to_string()));
    receive_message(&mut slide, BEN, answer, &mut leaderboard, &stage(&watchers, &tunnels, 2));
    assert_eq!(slide.core.state, SlideState::AnswersResults);
    let mut scores = round_scores(&slide, &stage(&watchers, &tunnels, 3));
    scores.sort();
    assert_eq!(scores, vec![(ANN, 1000), (BEN, 0)]);
}

#[test]
fn items_are_shown_in_another_order() {
    let (watchers, tunnels) = crowd();
    let mut shuffled = false;
    for _ in 0..20 {
        let mut slide = ordered();
        slide.play(&stage(&watchers, &tunnels, 0));
        let mut items = slide.shuffled_answers.clone();
        shuffled = shuffled || items != slide.config.answers;
        items.sort();
        assert_eq!(items, slide.config.answers);
    }
    assert!(shuffled);
}

#[test]
fn closer_arrangements_earn_more() {
    let (watchers, tunnels) = crowd();
    let mut slide = ordered();
    let mut leaderboard = Leaderboard::new();
    slide.play(&stage(&watchers, &tunnels, 0));
    assert_eq!(slide.core.state, SlideState::Answers);
    let mut items = slide.config.answers.clone();
    let answer = player(IncomingPlayerMessage::StringArrayAnswer(items.clone()));
    receive_message(&mut slide, ANN, answer, &mut leaderboard, &stage(&watchers, &tunnels, 1));
    items.swap(0, 1);
    let answer = player(IncomingPlayerMessage::StringArrayAnswer(items));
    let (_, effects) = receive_message(&mut slide, BEN, answer, &mut leaderboard, &stage(&watchers, &tunnels, 1));
    assert!(matches!(
        &effects[..],
        [Effect::Send {
            message: UpdateMessage::Order(order::UpdateMessage::AnswersResults { results: (1, 1), .. }),
            ..
        }]
    ));
    let mut scores = round_scores(&slide, &stage(&watchers, &tunnels, 3));
    scores.sort();
    assert_eq!(scores, vec![(ANN, 600), (BEN, 450)]);
}

#[test]
fn arrangements_are_judged_item_by_item() {
    let mut slide = ordered();
    slide.config.answers = vec!["A".to_string(), "B".to_string(), "C".to_string()];
    let part = |items: &[&str]| slide.score_multiplier(&items.iter().map(|item| item.to_string()).collect());
    assert_eq!(part(&["A", "B", "C"]), Multiplier { numerator: 3, denominator: 3 });
    assert_eq!(part(&["B", "A", "C"]), Multiplier { numerator: 1, denominator: 3 });
    assert_eq!(part(&["B", "C", "A"]), Multiplier { numerator: 0, denominator: 3 });
    assert_eq!(part(&["A", "B"]), Multiplier { numerator: 2, denominator: 3 });
    assert_eq!(part(&["A", "B", "C", "D"]), Multiplier { numerator: 3, denominator: 4 });
    assert_eq!(part(&[]).apply(600), 0);
    slide.config.answers.clear();
    assert_eq!(slide.score_multiplier(&vec![]).apply(600), 600);
}

#[test]
fn every_member_of_a_team_sees_a_choice() {
    let slide = choices(AnswerMode::SingleAnswer, 0, 0);
    for size in 1..12 {
        for place in 0..size {
            let seen = visible(&slide.get_answers_for_player(ValueKind::Player, size, place, true));
            assert!(seen.contains(&true));
        }
    }
}

#[test]
fn leaving_and_returning_change_the_count_back() {
    let mut slide = choices(AnswerMode::SingleAnswer, 0, 0);
    let now = Timestamp::from_nanos_since_epoch(0);
    slide.book.record_answer(ANN, vec![0], now);
    slide.book.record_answer(BEN, vec![1], now);
    slide.book.mark_watcher_left(ANN);
    assert_eq!(slide.book.live_answered_count, 1);
    slide.book.mark_watcher_returned(ANN);
    assert_eq!(slide.book.live_answered_count, 2);
}
