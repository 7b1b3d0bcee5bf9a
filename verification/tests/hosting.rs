use std::time::Duration;

use fuiz::fuiz::common::{ProceedFromSlideIntoSlide, SlideState};
use fuiz::fuiz::config::Fuiz;
use fuiz::game::{Game, IncomingGhostMessage, IncomingHostMessage, IncomingMessage, Options, State};
use fuiz::hosting::{
    alarm_change, check_exists, is_game_done, is_mismatch, join_chunks, react, requested, route_message,
    route_tied_message, scheduled_alarm, split_chunks, sweep, watcher_exists, AlarmChange, Frame, GameVanish, Reaction,
    Request, Route, Sweep, CHUNK_SIZE,
};
use fuiz::session::Effect;
use fuiz::settings::Settings;
use fuiz::watcher::Id;
use fuiz::AlarmMessage;

fn game(host_id: Id) -> Game {
    Game::new(Fuiz::default(), Options::default(), host_id, &Settings::default())
}

fn alarm(index: usize) -> AlarmMessage {
    AlarmMessage::MultipleChoice(ProceedFromSlideIntoSlide { index, to: SlideState::Answers })
}

#[test]
fn a_game_exists_until_it_is_done() {
    let host_id = Id(7);
    let mut present = Some(game(host_id));
    assert!(check_exists(&present).is_ok());
    assert_eq!(is_game_done(&present), Ok(false));
    assert_eq!(watcher_exists(&present, host_id), Ok(true));
    assert_eq!(watcher_exists(&present, Id(8)), Ok(false));

    present.as_mut().unwrap().state = State::Done;
    assert_eq!(check_exists(&present), Err(GameVanish {}));
    assert_eq!(is_game_done(&present), Ok(true));
    assert_eq!(watcher_exists(&present, host_id), Err(GameVanish {}));

    assert_eq!(check_exists(&None), Err(GameVanish {}));
    assert_eq!(is_game_done(&None), Err(GameVanish {}));
    assert_eq!(watcher_exists(&None, host_id), Err(GameVanish {}));
    assert_eq!(GameVanish {}.message(), "game does not exist");
}

#[test]
fn finished_games_are_swept() {
    assert_eq!(sweep(Ok(false)), Sweep::Wait);
    assert_eq!(sweep(Ok(true)), Sweep::Remove);
    assert_eq!(sweep(Err(GameVanish {})), Sweep::Stop);
}

#[test]
fn answers_to_pings_are_compared() {
    assert!(!is_mismatch(&[1, 2, 3], &[1, 2, 3]));
    assert!(is_mismatch(&[1, 2, 4], &[1, 2, 3]));
    assert!(is_mismatch(&[1, 2], &[1, 2, 3]));
    assert!(is_mismatch(&[], &[0]));
}

#[test]
fn frames_are_reacted_to() {
    assert!(matches!(react(false, Frame::Ping, &[]), Reaction::Stop));
    assert!(matches!(react(true, Frame::Ping, &[]), Reaction::Answer));
    assert!(matches!(react(true, Frame::Pong(&[1]), &[1]), Reaction::Ignore));
    assert!(matches!(react(true, Frame::Pong(&[1]), &[2]), Reaction::Stop));
    assert!(matches!(react(true, Frame::Text(None), &[]), Reaction::Ignore));
    assert!(matches!(react(true, Frame::Other, &[]), Reaction::Stop));
    let next = IncomingMessage::Host(IncomingHostMessage::Next);
    assert!(matches!(
        react(true, Frame::Text(Some(next)), &[]),
        Reaction::Route(IncomingMessage::Host(IncomingHostMessage::Next))
    ));
}

#[test]
fn messages_are_routed() {
    let host_id = Id(7);
    let game = game(host_id);
    let claim = |id: Id| IncomingMessage::Newcomer(IncomingGhostMessage::ClaimId(id));
    let demand = || IncomingMessage::Newcomer(IncomingGhostMessage::DemandId);
    let next = || IncomingMessage::Host(IncomingHostMessage::Next);

    assert!(matches!(route_message(None, claim(host_id), &game), Route::Claim(id) if id == host_id));
    assert!(matches!(route_message(None, claim(Id(8)), &game), Route::Join));
    assert!(matches!(route_message(None, demand(), &game), Route::Join));
    assert!(matches!(route_message(None, next(), &game), Route::Ignore));
    assert!(matches!(route_message(Some(host_id), demand(), &game), Route::Ignore));
    assert!(matches!(route_message(Some(host_id), next(), &game), Route::Forward(id, _) if id == host_id));

    assert!(matches!(route_tied_message(Some(Id(8)), demand(), &game), Route::Admit(id) if id == Id(8)));
    assert!(matches!(route_tied_message(Some(Id(8)), claim(host_id), &game), Route::Resume(id) if id == Id(8)));
    assert!(matches!(route_tied_message(Some(host_id), next(), &game), Route::Forward(id, _) if id == host_id));
    assert!(matches!(route_tied_message(None, claim(host_id), &game), Route::Claim(id) if id == host_id));
}

#[test]
fn the_last_alarm_counts() {
    let effects = vec![
        Effect::Schedule { alarm: alarm(0), after: Duration::from_secs(1) },
        Effect::Schedule { alarm: alarm(1), after: Duration::from_secs(2) },
        Effect::Close(Id(1)),
    ];
    assert_eq!(scheduled_alarm(&effects), Some((alarm(1), Duration::from_secs(2))));
    assert_eq!(scheduled_alarm(&vec![Effect::Close(Id(1))]), None);
}

#[test]
fn games_that_wait_for_nothing_expire() {
    let scheduled = Some((alarm(0), Duration::from_secs(1)));
    assert!(matches!(
        alarm_change(scheduled, true),
        AlarmChange::Schedule(set, after) if set == alarm(0) && after == Duration::from_secs(1)
    ));
    assert!(matches!(alarm_change(None, false), AlarmChange::Expire));
    assert!(matches!(alarm_change(None, true), AlarmChange::Keep));
}

#[test]
fn bytes_survive_storage() {
    let bytes: Vec<u8> = (0..CHUNK_SIZE * 2 + 10).map(|i| (i % 251) as u8).collect();
    let chunks = split_chunks(&bytes);
    assert_eq!(chunks.iter().map(Vec::len).collect::<Vec<_>>(), vec![CHUNK_SIZE, CHUNK_SIZE, 10]);
    let mut stored: Vec<Option<Vec<u8>>> = chunks.into_iter().map(Some).collect();
    assert_eq!(join_chunks(&stored), Some(bytes));
    stored[1] = None;
    assert_eq!(join_chunks(&stored), None);
}

#[test]
fn nothing_takes_no_pieces() {
    assert!(split_chunks(&vec![]).is_empty());
    assert_eq!(join_chunks(&vec![]), Some(vec![]));
    assert_eq!(split_chunks(&vec![1; CHUNK_SIZE]).len(), 1);
}

#[test]
fn paths_name_requests() {
    assert_eq!(requested("/add"), Request::Add);
    assert_eq!(requested("/alive/ABC"), Request::Alive);
    assert_eq!(requested("/watch/ABC/42"), Request::Watch(Some(Id(42))));
    assert_eq!(requested("/watch/ABC/"), Request::Watch(None));
    assert_eq!(requested("/watch/ABC/me"), Request::Watch(None));
    assert_eq!(requested("/ad"), Request::Watch(None));
    assert_eq!(requested("17"), Request::Watch(Some(Id(17))));
}

#[test]
fn identifiers_are_read_back() {
    for id in [Id(0), Id(9), Id(10), Id(u128::MAX), Id::new()] {
        assert_eq!(Id::from_text(&id.to_text()), Some(id));
    }
    assert_eq!(Id(907).to_text(), "907");
    assert_eq!(Id(u128::MAX).to_text(), u128::MAX.to_string());
    assert_eq!(Id::from_text(""), None);
    assert_eq!(Id::from_text("007"), None);
    assert_eq!(Id::from_text("+7"), None);
    assert_eq!(Id::from_text("7a"), None);
    assert_eq!(Id::from_text("340282366920938463463374607431768211456"), None);
}
