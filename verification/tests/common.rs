use std::time::Duration;

use fuiz::fuiz::common::{
    after_answer, all_players_answered, calculate_slide_score, get_answered_count, should_announce_answered_count,
    AnswerBook, PostAnswer,
};
use fuiz::time::Timestamp;
use fuiz::watcher::{Id, PlayerValue, Value, Watchers};

fn start() -> Timestamp {
    Timestamp::from_nanos_since_epoch(0)
}

fn populate_watchers(count: usize) -> Watchers {
    let mut watchers = Watchers::new(count.max(1));
    for _ in 0..count {
        watchers
            .add_watcher(Id::new(), Value::Player(PlayerValue::Individual))
            .expect("under capacity");
    }
    watchers
}

#[test]
fn small_counts_under_threshold_always_send() {
    for count in 0..32 {
        assert!(
            should_announce_answered_count(count),
            "count {count} should send (below 2^5 shortcut)"
        );
    }
}

#[test]
fn boundary_between_bands_sends_or_skips_as_expected() {
    // Band 32..63 → step 2 (send on even).
    assert!(should_announce_answered_count(32));
    assert!(!should_announce_answered_count(33));
    assert!(should_announce_answered_count(34));
    assert!(!should_announce_answered_count(63));
    // Band 64..127 → step 4.
    assert!(should_announce_answered_count(64));
    assert!(!should_announce_answered_count(65));
    assert!(!should_announce_answered_count(66));
    assert!(should_announce_answered_count(68));
    // Band 128..255 → step 8.
    assert!(should_announce_answered_count(128));
    assert!(!should_announce_answered_count(129));
    assert!(should_announce_answered_count(136));
    assert!(!should_announce_answered_count(132));
}

#[test]
fn larger_counts_follow_log_pattern() {
    // Band 1024..2047 → step 64.
    assert!(should_announce_answered_count(1024));
    assert!(should_announce_answered_count(1088)); // 1024 + 64
    assert!(!should_announce_answered_count(1065));
    // Band 2048..4095 → step 128.
    assert!(should_announce_answered_count(2048));
    assert!(should_announce_answered_count(2176)); // 2048 + 128
    assert!(!should_announce_answered_count(2050));
}

#[test]
fn send_count_matches_log_total() {
    // For values 0..4096 the predicate should fire roughly log-many times.
    // Exact count: 32 (band 0..31) + 16 per band × 7 bands = 144.
    let sent: usize = (0..4096).filter(|&n| should_announce_answered_count(n)).count();
    assert_eq!(sent, 144);
}

#[test]
fn score_is_full_in_host_paced_mode() {
    assert_eq!(calculate_slide_score(None, Duration::from_secs(0), 1000), 1000);
    assert_eq!(
        calculate_slide_score(None, Duration::from_secs(60), 1000),
        1000,
        "host-paced mode ignores how long the player took"
    );
}

#[test]
fn instant_answer_earns_full_points() {
    let limit = Some(Duration::from_secs(10));
    assert_eq!(calculate_slide_score(limit, Duration::from_secs(0), 1000), 1000);
}

#[test]
fn half_time_answer_earns_three_quarter_points() {
    // formula: pts * (1 - taken/full/2) → 1 - 0.5/2 = 0.75
    let limit = Some(Duration::from_secs(10));
    assert_eq!(calculate_slide_score(limit, Duration::from_secs(5), 1000), 750);
}

#[test]
fn end_of_window_answer_earns_half_points() {
    // 1 - 1.0/2 = 0.5
    let limit = Some(Duration::from_secs(10));
    assert_eq!(calculate_slide_score(limit, Duration::from_secs(10), 1000), 500);
}

#[test]
fn record_answer_increments_live_count_only_on_first_submission() {
    let mut book = AnswerBook::new();
    let id = Id::new();

    book.record_answer(id, true, start());
    assert_eq!(book.live_answered_count, 1);
    assert!(book.user_answers.contains_key(id));

    // Second answer from the same player must not double-count.
    book.record_answer(id, false, start());
    assert_eq!(book.live_answered_count, 1, "overwrite should not bump counter");
    assert_eq!(book.user_answers.get(id).map(|(a, _)| *a), Some(false));
}

#[test]
fn mark_watcher_left_decrements_only_for_answered_players() {
    let mut book = AnswerBook::new();
    let answered = Id::new();
    let absent = Id::new();

    book.record_answer(answered, true, start());
    assert_eq!(book.live_answered_count, 1);

    // Leaving without having answered is a no-op.
    book.mark_watcher_left(absent);
    assert_eq!(book.live_answered_count, 1);

    // Leaving after answering decrements.
    book.mark_watcher_left(answered);
    assert_eq!(book.live_answered_count, 0);

    // Saturating: another leave doesn't underflow.
    book.mark_watcher_left(answered);
    assert_eq!(book.live_answered_count, 0);
}

#[test]
fn mark_watcher_returned_only_credits_back_if_answer_is_on_file() {
    let mut book = AnswerBook::new();
    let answered = Id::new();
    let absent = Id::new();

    book.record_answer(answered, true, start());
    book.mark_watcher_left(answered);
    assert_eq!(book.live_answered_count, 0);

    // Returning a player who had answered restores the count.
    book.mark_watcher_returned(answered);
    assert_eq!(book.live_answered_count, 1);

    // Returning a player who never answered is a no-op.
    book.mark_watcher_returned(absent);
    assert_eq!(book.live_answered_count, 1);
}

#[test]
fn ids_of_who_answered_returns_exactly_the_submitters() {
    let mut book = AnswerBook::new();
    let a = Id::new();
    let b = Id::new();

    book.record_answer(a, true, start());
    book.record_answer(b, false, start());

    let mut ids: Vec<_> = book.ids_of_who_answered();
    ids.sort();
    let mut want = vec![a, b];
    want.sort();
    assert_eq!(ids, want);
}

#[test]
fn all_players_answered_is_false_with_no_players() {
    let book: AnswerBook<bool> = AnswerBook::new();
    let watchers = Watchers::new(10);
    assert!(!all_players_answered(&book, &watchers));
}

#[test]
fn all_players_answered_is_false_when_some_havent_submitted() {
    let mut book = AnswerBook::new();
    let watchers = populate_watchers(3);

    book.record_answer(Id::new(), true, start()); // not in watchers, just increments counter
    book.record_answer(Id::new(), true, start());

    assert!(!all_players_answered(&book, &watchers));
}

#[test]
fn all_players_answered_is_true_once_count_meets_live_player_total() {
    let mut book = AnswerBook::new();
    let watchers = populate_watchers(3);

    for _ in 0..3 {
        book.record_answer(Id::new(), true, start());
    }

    assert!(all_players_answered(&book, &watchers));
}

#[test]
fn get_answered_count_mirrors_live_answered_count() {
    let mut book = AnswerBook::new();
    assert_eq!(get_answered_count(&book), 0);

    book.record_answer(Id::new(), true, start());
    book.record_answer(Id::new(), false, start());
    assert_eq!(get_answered_count(&book), 2);
}

#[test]
fn handle_post_answer_finalizes_when_all_have_answered() {
    let mut book: AnswerBook<bool> = AnswerBook::new();
    let watchers = populate_watchers(3);

    for _ in 0..3 {
        book.record_answer(Id::new(), true, start());
    }

    assert_eq!(after_answer(&book, &watchers), PostAnswer::Results);
}

#[test]
fn handle_post_answer_ticks_on_throttle_boundary() {
    let mut book: AnswerBook<bool> = AnswerBook::new();
    let watchers = populate_watchers(100);

    // Drive the live-answered count to 32 — the first boundary above the
    // small-value shortcut, so the throttle should fire here.
    book.live_answered_count = 32;

    assert_eq!(after_answer(&book, &watchers), PostAnswer::Count(32));
}

#[test]
fn handle_post_answer_skips_tick_between_boundaries() {
    let mut book: AnswerBook<bool> = AnswerBook::new();
    let watchers = populate_watchers(100);

    // 33 falls inside the 32..63 band (step 2) but isn't a multiple of 2.
    book.live_answered_count = 33;

    assert_eq!(after_answer(&book, &watchers), PostAnswer::Nothing);
}
