use std::time::Duration;

use fuiz::fuiz::common::{calculate_slide_score, scale, should_announce_answered_count, Multiplier};
use fuiz::leaderboard::{Leaderboard, ScoreMessage};
use fuiz::time::Timestamp;
use fuiz::watcher::Id;

#[test]
fn products_are_divided_without_overflow() {
    assert_eq!(scale(1000, 3, 4), (750, 0));
    assert_eq!(scale(7, 2, 3), (4, 2));
    assert_eq!(scale(u64::MAX, 1 << 100, 1 << 100), (u64::MAX, 0));
    assert_eq!(scale(0, 5, 9), (0, 0));
}

#[test]
fn late_answers_earn_less() {
    let window = Some(Duration::from_secs(10));
    let points: Vec<u64> = [0, 1, 3, 7, 15, 20, 25]
        .iter()
        .map(|seconds| calculate_slide_score(window, Duration::from_secs(*seconds), 1000))
        .collect();
    assert_eq!(points, vec![1000, 950, 850, 650, 250, 0, 0]);
    assert_eq!(calculate_slide_score(Some(Duration::ZERO), Duration::ZERO, 1000), 0);
    assert_eq!(calculate_slide_score(window, Duration::from_nanos(1), 1000), 999);
}

#[test]
fn parts_of_points_are_rounded_down() {
    assert_eq!(Multiplier { numerator: 2, denominator: 3 }.apply(1000), 666);
    assert_eq!(Multiplier::whole(true).apply(1000), 1000);
    assert_eq!(Multiplier::whole(false).apply(1000), 0);
}

#[test]
fn counts_are_announced_to_five_digits() {
    assert!(should_announce_answered_count(usize::MAX - (usize::MAX >> 5)));
    assert!(!should_announce_answered_count(usize::MAX));
    assert!(should_announce_answered_count(0b11111));
    assert!(!should_announce_answered_count(0b100001));
}

#[test]
fn counts_are_announced_in_growing_steps() {
    for band in 5..20u32 {
        let step = 1usize << (band - 4);
        for count in (1usize << band)..(1usize << (band + 1)).min((1 << band) + 4096) {
            assert_eq!(should_announce_answered_count(count), count % step == 0);
            assert_eq!(should_announce_answered_count(2 * count), should_announce_answered_count(count));
        }
    }
}

#[test]
fn points_add_up_and_rank() {
    let mut leaderboard = Leaderboard::new();
    let (a, b, c) = (Id(1), Id(2), Id(3));
    assert_eq!(leaderboard.score(a), None);
    leaderboard.add_scores(&vec![(a, 100), (b, 300), (c, 0)]);
    leaderboard.add_scores(&vec![(b, 0), (a, 250), (c, 350)]);
    assert_eq!(leaderboard.score(a), Some(ScoreMessage { points: 350, position: 0 }));
    assert_eq!(leaderboard.score(c), Some(ScoreMessage { points: 350, position: 1 }));
    assert_eq!(leaderboard.score(b), Some(ScoreMessage { points: 300, position: 2 }));
    let (current, prior) = leaderboard.last_two_scores_descending();
    assert_eq!(current.items(), &[(a, 350), (c, 350), (b, 300)]);
    assert_eq!(prior.items(), &[(b, 300), (a, 100), (c, 0)]);
    assert_eq!(leaderboard.player_summary(b, true), vec![300, 0]);
    assert_eq!(leaderboard.player_summary(b, false), vec![1, 0]);
    let summary = leaderboard.host_summary(true);
    assert_eq!(summary.total_players, 3);
    assert_eq!(summary.correctness_stats, vec![(2, 3), (2, 3)]);
    assert_eq!(summary.player_scores, vec![(a, vec![100, 250]), (b, vec![300, 0]), (c, vec![0, 350])]);
}

#[test]
fn points_do_not_overflow() {
    let mut leaderboard = Leaderboard::default();
    leaderboard.add_scores(&vec![(Id(1), u64::MAX)]);
    leaderboard.add_scores(&vec![(Id(1), 1)]);
    assert_eq!(leaderboard.score(Id(1)), Some(ScoreMessage { points: u64::MAX, position: 0 }));
}

#[test]
fn only_the_first_standings_are_listed() {
    let mut leaderboard = Leaderboard::new();
    let round: Vec<(Id, u64)> = (0..60u64).map(|i| (Id(u128::from(i)), i)).collect();
    leaderboard.add_scores(&round);
    let (current, prior) = leaderboard.last_two_scores_descending();
    assert_eq!(current.exact_count(), 60);
    assert_eq!(current.items().len(), 50);
    assert_eq!(current.items()[0], (Id(59), 59));
    assert_eq!(prior.exact_count(), 0);
}

#[test]
fn time_is_measured_from_the_epoch() {
    let early = Timestamp::from_nanos_since_epoch(1_000);
    let late = Timestamp::from_nanos_since_epoch(3_500);
    assert_eq!(late.duration_since(early), Duration::from_nanos(2_500));
    assert_eq!(early.duration_since(late), Duration::ZERO);
    assert_eq!(Timestamp::after_epoch(Duration::from_secs(2)).nanos_since_epoch, 2_000_000_000);
    assert_eq!(Timestamp::after_epoch(Duration::MAX).nanos_since_epoch, u64::MAX);
    assert!(Timestamp::now() > Timestamp::from_nanos_since_epoch(1_600_000_000_000_000_000));
    assert!(Timestamp::now().elapsed() < Duration::from_secs(10));
    assert!(Timestamp::from_nanos_since_epoch(0).elapsed() > Duration::from_secs(1_600_000_000));
}
