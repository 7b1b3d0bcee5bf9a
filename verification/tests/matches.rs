use std::time::Duration;

use fuiz::fuiz::common::SlideState;
use fuiz::fuiz::config::{Fuiz, SlideConfig, TextOrMedia};
use fuiz::fuiz::multiple_choice::{self, AnswerChoice, AnswerMode};
use fuiz::game::{
    Game, HostScreen, IncomingHostMessage, IncomingMessage, IncomingPlayerMessage, IncomingUnassignedMessage, MetainfoMessage,
    Options, SlidePosition, State, SummaryMessage, SyncMessage, TeamOptions, UpdateMessage,
};
use fuiz::leaderboard::ScoreMessage;
use fuiz::names::{Error, NameStyle};
use fuiz::session::{Audience, Effect, Tunnels};
use fuiz::settings::Settings;
use fuiz::time::Timestamp;
use fuiz::watcher::{Error as WatcherError, Id, PlayerValue, Value, ValueKind};
use fuiz::SyncMessage as Sync;
use fuiz::UpdateMessage as Update;

const HOST: Id = Id(1);

fn at(seconds: u64) -> Timestamp {
    Timestamp::after_epoch(Duration::from_secs(seconds))
}

fn open_to(ids: &[Id]) -> Tunnels {
    let mut tunnels = Tunnels::new();
    for id in ids {
        tunnels.insert(*id);
    }
    tunnels
}

fn question() -> SlideConfig {
    SlideConfig::MultipleChoice(multiple_choice::SlideConfig {
        title: "Which?".to_string(),
        media: None,
        introduce_slide: Some(Duration::ZERO),
        introduce_question: Some(Duration::ZERO),
        time_limit: Some(Duration::from_secs(10)),
        points_awarded: 1000,
        answers: vec![
            AnswerChoice { correct: true, content: TextOrMedia::Text("Right".to_string()) },
            AnswerChoice { correct: false, content: TextOrMedia::Text("Wrong".to_string()) },
        ],
        answer_mode: AnswerMode::SingleAnswer,
    })
}

fn game(slides: usize, options: Options) -> Game {
    let slides = (0..slides).map(|_| question()).collect();
    Game::new(Fuiz { title: "Quiz".to_string(), slides }, options, HOST, &Settings::default())
}

fn next() -> IncomingMessage {
    IncomingMessage::Host(IncomingHostMessage::Next)
}

fn asks_name(name: &str) -> IncomingMessage {
    IncomingMessage::Unassigned(IncomingUnassignedMessage::NameRequest(name.to_string()))
}

fn answers(choice: usize) -> IncomingMessage {
    IncomingMessage::Player(IncomingPlayerMessage::IndexAnswer(choice))
}

fn join(game: &mut Game, id: Id, name: &str, tunnels: &Tunnels) -> Vec<Effect> {
    assert!(game.add_unassigned(id, tunnels, at(0)).is_ok());
    game.receive_message(id, asks_name(name), tunnels, at(0))
}

#[test]
fn a_match_is_played_to_the_end() {
    let (ann, ben) = (Id(2), Id(3));
    let tunnels = open_to(&[HOST, ann, ben]);
    let mut game = game(2, Options::default());
    join(&mut game, ann, "Ann", &tunnels);
    join(&mut game, ben, "Ben", &tunnels);

    game.receive_message(HOST, next(), &tunnels, at(100));
    assert!(matches!(&game.state, State::Slide(current) if current.index == 0));
    game.receive_message(ann, answers(0), &tunnels, at(102));
    let effects = game.receive_message(ben, answers(0), &tunnels, at(104));
    assert_eq!(effects.len(), 1);
    assert!(game.score(ann).is_none());

    let effects = game.receive_message(HOST, next(), &tunnels, at(105));
    assert!(matches!(game.state, State::Leaderboard(0)));
    assert_eq!(game.score(ann), Some(ScoreMessage { points: 900, position: 0 }));
    assert_eq!(game.score(ben), Some(ScoreMessage { points: 800, position: 1 }));
    assert_eq!(effects.len(), 3);
    assert!(effects.iter().any(|effect| matches!(
        effect,
        Effect::Send {
            to: Audience::One(to),
            message: Update::Game(UpdateMessage::Score { score: Some(ScoreMessage { points: 800, position: 1 }) }),
        } if *to == ben
    )));

    game.receive_message(HOST, next(), &tunnels, at(106));
    assert!(matches!(&game.state, State::Slide(current) if current.index == 1));
    game.receive_message(HOST, next(), &tunnels, at(107));
    game.receive_message(HOST, next(), &tunnels, at(108));
    assert!(matches!(game.state, State::Leaderboard(1)));
    let effects = game.receive_message(HOST, next(), &tunnels, at(109));
    assert!(matches!(game.state, State::Done));
    assert!(effects.iter().any(|effect| matches!(
        effect,
        Effect::Send {
            to: Audience::One(HOST),
            message: Update::Game(UpdateMessage::Summary(SummaryMessage::Host { stats, player_count: 2, .. })),
        } if *stats == vec![(2, 2), (0, 2)]
    )));

    let effects = game.receive_message(HOST, next(), &tunnels, at(110));
    assert_eq!(effects.len(), 3);
    assert!(effects.iter().all(|effect| matches!(effect, Effect::Close(_))));
}

#[test]
fn names_are_asked_for_and_refused() {
    let (ann, ben) = (Id(2), Id(3));
    let tunnels = open_to(&[HOST, ann, ben]);
    let mut game = game(1, Options::default());
    let effects = game.add_unassigned(ann, &tunnels, at(0)).unwrap();
    assert!(matches!(
        &effects[..],
        [Effect::Send { to: Audience::One(to), message: Update::Game(UpdateMessage::NameChoose) }] if *to == ann
    ));
    let effects = game.receive_message(ann, asks_name("  Ann "), &tunnels, at(0));
    assert_eq!(effects.len(), 4);
    assert!(matches!(
        &effects[0],
        Effect::Send { message: Update::Game(UpdateMessage::NameAssign(name)), .. } if name == "Ann"
    ));
    assert!(matches!(
        &effects[1],
        Effect::Sync {
            message: Sync::Game(SyncMessage::Metainfo(MetainfoMessage::Player { score: 0, show_answers: false })),
            ..
        }
    ));
    assert!(matches!(
        &effects[2],
        Effect::Send {
            to: Audience::Kind(ValueKind::Host),
            message: Update::Game(UpdateMessage::WaitingScreen(list)),
        } if list.items() == ["Ann".to_string()] && list.exact_count() == 1
    ));
    assert!(matches!(&effects[3], Effect::Sync { message: Sync::Game(SyncMessage::WaitingScreen(_)), .. }));

    assert!(game.add_unassigned(ben, &tunnels, at(0)).is_ok());
    for (name, error) in [
        ("Ann", Error::Used),
        ("   ", Error::Empty),
        ("shit", Error::Sinful),
        ("1234567890123456789012345678901", Error::TooLong),
    ] {
        let effects = game.receive_message(ben, asks_name(name), &tunnels, at(0));
        assert!(matches!(
            &effects[..],
            [Effect::Send { message: Update::Game(UpdateMessage::NameError(told)), .. }] if *told == error
        ));
    }
    assert!(matches!(game.assign_player_name(ann, "Anna", &tunnels, at(0)), Err(Error::Assigned)));
}

#[test]
fn a_full_game_takes_nobody_in() {
    let tunnels = open_to(&[]);
    let mut settings = Settings::default();
    settings.fuiz.max_player_count = 1;
    let mut game = Game::new(Fuiz::default(), Options::default(), HOST, &settings);
    assert!(game.add_unassigned(Id(2), &tunnels, at(0)).is_ok());
    assert!(matches!(game.add_unassigned(Id(3), &tunnels, at(0)), Err(WatcherError::MaximumPlayers)));
    assert!(!game.watchers.has_watcher(Id(3)));
    assert_eq!(WatcherError::MaximumPlayers.message(), "maximum number of players reached");
    assert!(matches!(game.add_unassigned(Id(2), &tunnels, at(0)), Err(WatcherError::IdInUse)));
    assert!(matches!(game.add_unassigned(HOST, &tunnels, at(0)), Err(WatcherError::IdInUse)));
    assert!(matches!(game.watchers.get_watcher_value(HOST), Some(Value::Host)));
    assert_eq!(WatcherError::IdInUse.message(), "identifier already in use");
}

#[test]
fn drawn_names_are_distinct() {
    for style in [NameStyle::Roman(2), NameStyle::Roman(3), NameStyle::Petname(2), NameStyle::Petname(3)] {
        let mut game = game(1, Options { random_names: Some(style), ..Default::default() });
        let tunnels = open_to(&[]);
        let ids: Vec<Id> = (2..40).map(Id).collect();
        for id in &ids {
            assert!(game.add_unassigned(*id, &tunnels, at(0)).is_ok());
        }
        let mut names: Vec<String> = ids.iter().map(|id| game.names.get_name(id).unwrap().to_string()).collect();
        names.sort();
        names.dedup();
        assert_eq!(names.len(), ids.len());
    }
}

#[test]
fn only_those_who_take_part_are_heard() {
    let ann = Id(2);
    let tunnels = open_to(&[HOST, ann]);
    let mut game = game(1, Options::default());
    assert!(game.receive_message(Id(9), next(), &tunnels, at(0)).is_empty());
    join(&mut game, ann, "Ann", &tunnels);
    assert!(game.receive_message(ann, next(), &tunnels, at(0)).is_empty());
    assert!(matches!(game.state, State::WaitingScreen));
}

#[test]
fn alarms_of_other_slides_are_late() {
    let ann = Id(2);
    let tunnels = open_to(&[HOST, ann]);
    let mut game = game(2, Options { no_leaderboard: true, ..Default::default() });
    join(&mut game, ann, "Ann", &tunnels);
    let effects = game.receive_message(HOST, next(), &tunnels, at(0));
    let alarm = effects
        .iter()
        .find_map(|effect| match effect {
            Effect::Schedule { alarm, .. } => Some(*alarm),
            _ => None,
        })
        .unwrap();
    game.receive_message(HOST, next(), &tunnels, at(1));
    game.receive_message(HOST, next(), &tunnels, at(2));
    assert!(matches!(&game.state, State::Slide(current) if current.index == 1));
    assert!(game.receive_alarm(&alarm, &tunnels, at(10)).is_empty());
}

#[test]
fn the_end_stays_the_end() {
    let tunnels = open_to(&[HOST]);
    let mut game = game(0, Options::default());
    game.receive_message(HOST, next(), &tunnels, at(0));
    for _ in 0..3 {
        assert!(matches!(game.state, State::Done));
        game.receive_message(HOST, next(), &tunnels, at(0));
    }
}

#[test]
fn those_who_left_are_not_waited_for() {
    let (ann, ben) = (Id(2), Id(3));
    let tunnels = open_to(&[HOST, ann, ben]);
    let mut game = game(1, Options::default());
    join(&mut game, ann, "Ann", &tunnels);
    join(&mut game, ben, "Ben", &tunnels);
    game.receive_message(HOST, next(), &tunnels, at(0));
    game.watcher_left(ben);
    assert!(game.can_count());
    let effects = game.receive_message(ann, answers(0), &tunnels, at(1));
    assert!(matches!(
        &effects[..],
        [Effect::Send {
            message: Update::MultipleChoice(multiple_choice::UpdateMessage::AnswersResults { .. }),
            ..
        }]
    ));
}

#[test]
fn those_who_return_are_brought_up_to_date() {
    let ann = Id(2);
    let tunnels = open_to(&[HOST, ann]);
    let mut game = game(1, Options { show_answers: true, ..Default::default() });
    join(&mut game, ann, "Ann", &tunnels);
    game.watcher_left(ann);
    let effects = game.update_session(ann, &tunnels, at(0));
    assert!(matches!(
        &effects[..],
        [
            Effect::Send { message: Update::Game(UpdateMessage::NameAssign(name)), .. },
            Effect::Sync {
                message: Sync::Game(SyncMessage::Metainfo(MetainfoMessage::Player { score: 0, show_answers: true })),
                ..
            },
            Effect::Sync { message: Sync::Game(SyncMessage::WaitingScreen(_)), .. },
        ] if name == "Ann"
    ));
    let effects = game.update_session(HOST, &tunnels, at(0));
    assert!(matches!(
        &effects[1],
        Effect::Sync { message: Sync::Game(SyncMessage::Metainfo(MetainfoMessage::Host { locked: false })), .. }
    ));
    assert!(game.update_session(Id(9), &tunnels, at(0)).is_empty());
}

#[test]
fn teams_play_together() {
    let players: Vec<Id> = (2..6).map(Id).collect();
    let mut everyone = players.clone();
    everyone.push(HOST);
    let tunnels = open_to(&everyone);
    let mut game = game(
        1,
        Options { teams: Some(TeamOptions { size: 2, assign_random: false }), ..Default::default() },
    );
    for (id, name) in players.iter().zip(["Ann", "Ben", "Cid", "Dot"]) {
        join(&mut game, *id, name, &tunnels);
    }
    for (id, mate) in [(0, "Dot"), (3, "Ann"), (1, "Cid"), (2, "Ben")] {
        let choice = IncomingPlayerMessage::ChooseTeammates(vec![mate.to_string()]);
        game.receive_message(players[id], IncomingMessage::Player(choice), &tunnels, at(0));
    }
    let effects = game.receive_message(HOST, next(), &tunnels, at(0));
    assert!(matches!(game.state, State::TeamDisplay));
    assert_eq!(effects.len(), 5);
    let team = |game: &Game, i: usize| game.leaderboard_id(players[i]);
    assert_eq!(team(&game, 0), team(&game, 3));
    assert_eq!(team(&game, 1), team(&game, 2));
    assert_ne!(team(&game, 0), team(&game, 1));
    assert!(matches!(
        game.watchers.get_watcher_value(players[0]),
        Some(Value::Player(PlayerValue::Team { team_id, .. })) if team_id == team(&game, 0)
    ));

    game.receive_message(HOST, next(), &tunnels, at(0));
    game.receive_message(players[3], answers(0), &tunnels, at(5));
    game.receive_message(players[0], answers(1), &tunnels, at(6));
    game.receive_message(HOST, next(), &tunnels, at(7));
    game.receive_message(HOST, next(), &tunnels, at(7));
    assert_eq!(game.score(players[0]), Some(ScoreMessage { points: 750, position: 0 }));
    assert_eq!(game.score(players[3]), game.score(players[0]));
    assert_eq!(game.score(players[1]), Some(ScoreMessage { points: 0, position: 1 }));
}

#[test]
fn a_kept_game_comes_back() {
    let (ann, ben) = (Id(2), Id(3));
    let tunnels = open_to(&[HOST, ann, ben]);
    let mut game = game(
        2,
        Options { teams: Some(TeamOptions { size: 1, assign_random: true }), ..Default::default() },
    );
    join(&mut game, ann, "Ann", &tunnels);
    join(&mut game, ben, "Ben", &tunnels);
    game.receive_message(HOST, next(), &tunnels, at(0));
    game.receive_message(HOST, next(), &tunnels, at(0));
    game.receive_message(ann, answers(0), &tunnels, at(5));
    game.watcher_left(ben);
    game.receive_message(HOST, next(), &tunnels, at(7));
    game.receive_message(HOST, next(), &tunnels, at(7));
    assert!(matches!(game.state, State::Leaderboard(0)));
    let score = game.score(ann);
    let team = game.leaderboard_id(ben);

    let kept = game.keep();
    assert_eq!(kept.participants.len(), 3);
    assert_eq!(kept.rounds.len(), 1);
    let mut back = kept.restore().unwrap();
    assert!(matches!(back.state, State::Leaderboard(0)));
    assert_eq!(back.score(ann), score);
    assert_eq!(score, Some(ScoreMessage { points: 750, position: 0 }));
    assert_eq!(back.leaderboard_id(ben), team);
    assert_eq!(back.names.get_id("Ben"), Some(ben));
    assert_eq!(back.watchers.specific_count(ValueKind::Player), 1);
    back.receive_message(HOST, next(), &tunnels, at(8));
    assert!(matches!(&back.state, State::Slide(current) if current.index == 1));
}

#[test]
fn what_was_no_game_does_not_come_back() {
    let ann = Id(2);
    let tunnels = open_to(&[HOST, ann]);
    let kept = || {
        let mut game = game(1, Options::default());
        join(&mut game, ann, "Ann", &tunnels);
        game.keep()
    };
    assert!(kept().restore().is_some());

    let mut twice = kept();
    twice.participants.push((ann, Value::Unassigned, false));
    assert!(twice.restore().is_none());

    let mut shared = kept();
    shared.names.mapping.insert(HOST, "Ann".to_string());
    assert!(shared.restore().is_none());

    let mut beyond = kept();
    beyond.state = State::Leaderboard(usize::MAX);
    assert!(beyond.restore().is_none());
}

#[test]
fn ten_presses_for_each_slide_reach_the_end() {
    for teams in [None, Some(TeamOptions { size: 2, assign_random: true })] {
        for slides in 0..4 {
            let ann = Id(2);
            let tunnels = open_to(&[HOST, ann]);
            let mut game = game(slides, Options { teams, ..Default::default() });
            join(&mut game, ann, "Ann", &tunnels);
            game.play(&tunnels, at(0));
            let mut shown: Vec<usize> = Vec::new();
            let mut presses = 0;
            while !matches!(game.state, State::Done) {
                if let State::Slide(current) = &game.state {
                    if shown.last() != Some(&current.index) {
                        shown.push(current.index);
                    }
                }
                for message in [
                    IncomingPlayerMessage::IndexAnswer(0),
                    IncomingPlayerMessage::IndexArrayAnswer(vec![0, 1]),
                    IncomingPlayerMessage::StringAnswer("hello".to_string()),
                    IncomingPlayerMessage::StringArrayAnswer(vec!["a".to_string(), "b".to_string()]),
                ] {
                    game.receive_message(ann, IncomingMessage::Player(message), &tunnels, at(1));
                }
                game.receive_message(HOST, next(), &tunnels, at(2));
                presses += 1;
            }
            assert!(presses <= 10 * slides);
            assert_eq!(shown, (0..slides).collect::<Vec<_>>());
        }
    }
}

#[test]
fn teams_come_before_the_first_slide() {
    let ann = Id(2);
    let tunnels = open_to(&[HOST, ann]);
    let mut game = game(
        1,
        Options {
            random_names: Some(NameStyle::Roman(3)),
            teams: Some(TeamOptions { size: 2, assign_random: false }),
            ..Default::default()
        },
    );
    assert!(game.add_unassigned(ann, &tunnels, at(0)).is_ok());
    let effects = game.play(&tunnels, at(0));
    assert!(matches!(game.state, State::TeamDisplay));
    assert!(!effects.iter().any(|effect| matches!(effect, Effect::Schedule { .. })));
    game.play(&tunnels, at(0));
    assert!(matches!(&game.state, State::Slide(current) if current.index == 0));
    let roman = game.team_manager.as_ref().unwrap().name_style;
    assert_eq!(roman, NameStyle::Roman(3));
}

#[test]
fn a_stale_next_is_ignored() {
    // The host double-clicks: the second press names the screen they were on,
    // not the one the game moved to, so it must do nothing.
    for options in [Options::default(), Options { no_leaderboard: true, ..Default::default() }] {
        let tunnels = open_to(&[HOST]);
        let mut game = game(2, options);
        game.play(&tunnels, at(0));
        while !matches!(game.state, State::Done) {
            let first = game.host_screen();
            let press = || IncomingMessage::Host(IncomingHostMessage::NextFrom(first));
            game.receive_message(HOST, press(), &tunnels, at(0));
            let after_one = game.host_screen();
            assert_ne!(first, after_one, "the first press should have advanced");

            assert!(game.receive_message(HOST, press(), &tunnels, at(0)).is_empty());
            assert_eq!(after_one, game.host_screen(), "a press naming an old screen should be ignored");
        }
    }
}

#[test]
fn the_host_looks_at_what_is_shown() {
    let ann = Id(2);
    let tunnels = open_to(&[HOST, ann]);
    let mut game = game(1, Options::default());
    join(&mut game, ann, "Ann", &tunnels);
    assert_eq!(game.host_screen(), HostScreen::Lobby);
    let elsewhere = IncomingMessage::Host(IncomingHostMessage::NextFrom(HostScreen::Summary));
    assert!(game.receive_message(HOST, elsewhere, &tunnels, at(0)).is_empty());
    assert_eq!(game.host_screen(), HostScreen::Lobby);
    game.play(&tunnels, at(0));
    let phase = SlideState::Answers;
    assert_eq!(game.host_screen(), HostScreen::Slide(SlidePosition::MultipleChoice { index: 0, phase }));
    game.receive_message(HOST, next(), &tunnels, at(0));
    game.receive_message(HOST, next(), &tunnels, at(0));
    assert_eq!(game.host_screen(), HostScreen::Leaderboard { index: 0 });
    let from_standings = IncomingMessage::Host(IncomingHostMessage::NextFrom(game.host_screen()));
    game.receive_message(HOST, from_standings, &tunnels, at(0));
    assert_eq!(game.host_screen(), HostScreen::Summary);
}
