use std::time::Duration;

use fuiz::fuiz::common::{ProceedFromSlideIntoSlide, SlideState};
use fuiz::fuiz::config::{Fuiz, SlideConfig, TextOrMedia};
use fuiz::fuiz::multiple_choice::{self, AnswerChoice, AnswerMode};
use fuiz::game::{
    Game, IncomingGhostMessage, IncomingHostMessage, IncomingMessage, IncomingPlayerMessage, IncomingUnassignedMessage,
    MetainfoMessage, Options, State, SummaryMessage, SyncMessage, TeamOptions, UpdateMessage,
};
use fuiz::names::NameStyle;
use fuiz::session::{Effect, Tunnels};
use fuiz::settings::Settings;
use fuiz::time::Timestamp;
use fuiz::watcher::{Id, Value, ValueKind};
use fuiz::AlarmMessage;
use fuiz::SyncMessage as Sync;

fn test_settings() -> Settings {
    Settings::default()
}

fn start() -> Timestamp {
    Timestamp::from_nanos_since_epoch(0)
}

fn open_to(ids: &[Id]) -> Tunnels {
    let mut tunnels = Tunnels::new();
    for id in ids {
        tunnels.insert(*id);
    }
    tunnels
}

fn choice(correct: bool, text: &str) -> AnswerChoice {
    AnswerChoice { correct, content: TextOrMedia::Text(text.to_string()) }
}

fn question(title: &str, answers: Vec<AnswerChoice>) -> SlideConfig {
    SlideConfig::MultipleChoice(multiple_choice::SlideConfig {
        title: title.to_string(),
        media: None,
        introduce_slide: Some(Duration::ZERO),
        introduce_question: Some(Duration::from_millis(5000000000)),
        time_limit: Some(Duration::from_millis(30000000000)),
        points_awarded: 1000,
        answers,
        answer_mode: AnswerMode::SingleAnswer,
    })
}

fn create_test_fuiz() -> Fuiz {
    Fuiz {
        title: "Test Quiz".to_string(),
        slides: vec![question("Test Question", vec![choice(true, "Correct Answer"), choice(false, "Wrong Answer")])],
    }
}

fn create_multi_slide_fuiz() -> Fuiz {
    Fuiz {
        title: "Multi Slide Quiz".to_string(),
        slides: vec![
            question("Question 1", vec![choice(true, "Correct Answer 1")]),
            question("Question 2", vec![choice(true, "Correct Answer 2")]),
        ],
    }
}

#[test]
fn test_team_options_validation() {
    let valid_config = TeamOptions {
        size: 3,
        assign_random: false,
    };
    assert!(valid_config.validate_with(&test_settings()).is_ok());

    let invalid_config = TeamOptions {
        size: 0, // Should be invalid
        assign_random: true,
    };
    assert!(invalid_config.validate_with(&test_settings()).is_err());
}

#[test]
fn test_game_new_without_teams() {
    let fuiz = create_test_fuiz();
    let options = Options {
        random_names: None,
        show_answers: false,
        no_leaderboard: false,
        teams: None,
    };
    let host_id = Id::new();

    let game = Game::new(fuiz, options, host_id, &test_settings());

    assert!(matches!(game.state, State::WaitingScreen));
    assert!(!game.locked);
    assert!(game.team_manager.is_none());
    assert!(!game.options.show_answers);
    assert!(!game.options.no_leaderboard);
}

#[test]
fn test_game_new_with_teams() {
    let fuiz = create_test_fuiz();
    let team_options = TeamOptions {
        size: 3,
        assign_random: true,
    };
    let options = Options {
        random_names: Some(NameStyle::default()),
        show_answers: true,
        no_leaderboard: true,
        teams: Some(team_options),
    };
    let host_id = Id::new();

    let game = Game::new(fuiz, options, host_id, &test_settings());

    assert!(matches!(game.state, State::WaitingScreen));
    assert!(!game.locked);
    assert!(game.team_manager.is_some());
    assert!(game.options.show_answers);
    assert!(game.options.no_leaderboard);
}

#[test]
fn test_game_set_state() {
    let fuiz = create_test_fuiz();
    let options = Options::default();
    let host_id = Id::new();
    let mut game = Game::new(fuiz, options, host_id, &test_settings());

    assert!(matches!(game.state, State::WaitingScreen));

    game.set_state(State::TeamDisplay);
    assert!(matches!(game.state, State::TeamDisplay));

    game.set_state(State::Done);
    assert!(matches!(game.state, State::Done));
}

#[test]
fn test_game_leaderboard_id_without_teams() {
    let fuiz = create_test_fuiz();
    let options = Options::default();
    let host_id = Id::new();
    let game = Game::new(fuiz, options, host_id, &test_settings());

    let player_id = Id::new();
    let leaderboard_id = game.leaderboard_id(player_id);

    assert_eq!(player_id, leaderboard_id);
}

#[test]
fn test_game_leaderboard_id_with_teams() {
    let fuiz = create_test_fuiz();
    let team_options = TeamOptions {
        size: 2,
        assign_random: false,
    };
    let options = Options {
        teams: Some(team_options),
        ..Default::default()
    };
    let host_id = Id::new();
    let game = Game::new(fuiz, options, host_id, &test_settings());

    let player_id = Id::new();
    let leaderboard_id = game.leaderboard_id(player_id);

    // When no team is assigned, should fall back to player_id
    assert_eq!(player_id, leaderboard_id);
}

#[test]
fn test_game_score_no_score() {
    let fuiz = create_test_fuiz();
    let options = Options::default();
    let host_id = Id::new();
    let game = Game::new(fuiz, options, host_id, &test_settings());

    let player_id = Id::new();
    let score = game.score(player_id);

    assert!(score.is_none());
}

#[test]
fn test_game_add_unassigned() {
    let fuiz = create_test_fuiz();
    let options = Options::default();
    let host_id = Id::new();
    let mut game = Game::new(fuiz, options, host_id, &test_settings());

    let unassigned_id = Id::new();
    let tunnels = open_to(&[unassigned_id]);

    assert!(game.add_unassigned(unassigned_id, &tunnels, start()).is_ok());

    // Should have added unassigned watcher
    assert!(game.watchers.has_watcher(unassigned_id));
}

#[test]
fn test_game_update_player_with_name() {
    let fuiz = create_test_fuiz();
    let options = Options::default();
    let host_id = Id::new();
    let mut game = Game::new(fuiz, options, host_id, &test_settings());

    let player_id = Id::new();
    let tunnels = open_to(&[player_id]);

    // Add as unassigned first
    assert!(game.add_unassigned(player_id, &tunnels, start()).is_ok());

    // Update to player with name
    game.update_player_with_name(player_id, "TestPlayer", &tunnels, start());

    // Should still have the watcher
    assert!(game.watchers.has_watcher(player_id));
}

#[test]
fn test_game_mark_as_done() {
    let fuiz = create_test_fuiz();
    let options = Options::default();
    let host_id = Id::new();
    let mut game = Game::new(fuiz, options, host_id, &test_settings());

    let tunnels = open_to(&[]);

    game.mark_as_done(&tunnels);

    assert!(matches!(game.state, State::Done));
}

#[test]
fn test_game_play_method() {
    let fuiz = create_test_fuiz();
    let options = Options::default();
    let host_id = Id::new();
    let mut game = Game::new(fuiz, options, host_id, &test_settings());

    let tunnels = open_to(&[]);

    let effects = game.play(&tunnels, start());

    // Should have transitioned to first slide
    assert!(matches!(game.state, State::Slide(_)));
    assert!(effects.iter().any(|effect| matches!(effect, Effect::Schedule { .. })));
}

#[test]
fn test_game_finish_slide() {
    let fuiz = create_test_fuiz();
    let options = Options::default();
    let host_id = Id::new();
    let mut game = Game::new(fuiz, options, host_id, &test_settings());

    let tunnels = open_to(&[]);

    // Start the game to get to first slide
    game.play(&tunnels, start());

    // Finish the slide
    game.finish_slide(&tunnels, start());

    // Should show leaderboard or be done (depending on options)
    assert!(matches!(game.state, State::Done) || matches!(game.state, State::Leaderboard(_)));
}

#[test]
fn test_game_state_message() {
    let fuiz = create_test_fuiz();
    let options = Options::default();
    let host_id = Id::new();
    let game = Game::new(fuiz, options, host_id, &test_settings());

    let player_id = Id::new();
    let tunnels = open_to(&[]);

    let state_msg = game.state_message(player_id, ValueKind::Player, &tunnels, start());

    // Should return waiting screen message for initial state
    assert!(matches!(
        state_msg,
        Sync::Game(SyncMessage::WaitingScreen(_))
    ));
}

#[test]
fn test_incoming_message_follows() {
    // Test IncomingMessage::follows method
    let host_msg = IncomingMessage::Host(IncomingHostMessage::Next);
    assert!(host_msg.follows(ValueKind::Host));
    assert!(!host_msg.follows(ValueKind::Player));
    assert!(!host_msg.follows(ValueKind::Unassigned));

    let player_msg = IncomingMessage::Player(IncomingPlayerMessage::IndexAnswer(0));
    assert!(player_msg.follows(ValueKind::Player));
    assert!(!player_msg.follows(ValueKind::Host));
    assert!(!player_msg.follows(ValueKind::Unassigned));

    let unassigned_msg = IncomingMessage::Unassigned(IncomingUnassignedMessage::NameRequest("test".to_string()));
    assert!(unassigned_msg.follows(ValueKind::Unassigned));
    assert!(!unassigned_msg.follows(ValueKind::Host));
    assert!(!unassigned_msg.follows(ValueKind::Player));
}

#[test]
fn test_game_with_team_formation() {
    let fuiz = create_test_fuiz();
    let team_options = TeamOptions {
        size: 2,
        assign_random: false,
    };
    let options = Options {
        teams: Some(team_options),
        ..Default::default()
    };
    let host_id = Id::new();
    let mut game = Game::new(fuiz, options, host_id, &test_settings());

    let player1 = Id::new();
    let player2 = Id::new();

    let tunnels = open_to(&[player1, player2]);

    // Add two players
    assert!(game.add_unassigned(player1, &tunnels, start()).is_ok());
    assert!(game.add_unassigned(player2, &tunnels, start()).is_ok());

    // Assign names to make them players
    assert!(game.assign_player_name(player1, "Player1", &tunnels, start()).is_ok());
    assert!(game.assign_player_name(player2, "Player2", &tunnels, start()).is_ok());

    // Start the game - should move to team display
    game.play(&tunnels, start());

    assert!(matches!(game.state, State::TeamDisplay));
}

#[test]
fn test_game_locked_behavior() {
    let fuiz = create_test_fuiz();
    let options = Options::default();
    let host_id = Id::new();
    let mut game = Game::new(fuiz, options, host_id, &test_settings());

    let unassigned_id = Id::new();
    let tunnels = open_to(&[unassigned_id]);

    // Lock the game
    game.locked = true;

    // Try to add unassigned player - should still add but not process
    assert!(game.add_unassigned(unassigned_id, &tunnels, start()).is_ok());

    // Process lock message from host
    let lock_msg = IncomingMessage::Host(IncomingHostMessage::Lock(false));

    game.receive_message(host_id, lock_msg, &tunnels, start());
    assert!(!game.locked);
}

#[test]
fn test_game_receive_message_invalid_sender() {
    let fuiz = create_test_fuiz();
    let options = Options::default();
    let host_id = Id::new();
    let mut game = Game::new(fuiz, options, host_id, &test_settings());

    let player_id = Id::new();
    let tunnels = open_to(&[player_id]);

    // Add player
    assert!(game.add_unassigned(player_id, &tunnels, start()).is_ok());
    assert!(game.assign_player_name(player_id, "TestPlayer", &tunnels, start()).is_ok());

    // Try to send host message from player (should be ignored)
    let invalid_msg = IncomingMessage::Host(IncomingHostMessage::Next);

    game.receive_message(player_id, invalid_msg, &tunnels, start());

    // State should not change since message doesn't follow sender type
    assert!(matches!(game.state, State::WaitingScreen));
}

#[test]
fn test_game_receive_message_nonexistent_watcher() {
    let fuiz = create_test_fuiz();
    let options = Options::default();
    let host_id = Id::new();
    let mut game = Game::new(fuiz, options, host_id, &test_settings());

    let nonexistent_id = Id::new();
    let tunnels = open_to(&[]);

    // Try to receive message from nonexistent watcher
    let msg = IncomingMessage::Host(IncomingHostMessage::Next);

    // Should not panic and should do nothing
    game.receive_message(nonexistent_id, msg, &tunnels, start());
}

#[test]
fn test_game_name_assignment_with_random_names() {
    let fuiz = create_test_fuiz();
    let options = Options {
        random_names: Some(NameStyle::default()),
        ..Default::default()
    };
    let host_id = Id::new();
    let mut game = Game::new(fuiz, options, host_id, &test_settings());

    let unassigned_id = Id::new();
    let tunnels = open_to(&[unassigned_id]);

    // Add unassigned player - should automatically get a random name
    assert!(game.add_unassigned(unassigned_id, &tunnels, start()).is_ok());

    // Should now be a player
    let watcher_value = game.watchers.get_watcher_value(unassigned_id);
    assert!(matches!(watcher_value, Some(Value::Player(_))));
}

#[test]
fn test_game_name_assignment_error() {
    let fuiz = create_test_fuiz();
    let options = Options::default();
    let host_id = Id::new();
    let mut game = Game::new(fuiz, options, host_id, &test_settings());

    let player1 = Id::new();
    let player2 = Id::new();
    let tunnels = open_to(&[player1, player2]);

    // Add two players
    assert!(game.add_unassigned(player1, &tunnels, start()).is_ok());
    assert!(game.add_unassigned(player2, &tunnels, start()).is_ok());

    // Assign same name to first player
    assert!(game.assign_player_name(player1, "SameName", &tunnels, start()).is_ok());

    // Try to assign same name to second player - should fail
    assert!(game.assign_player_name(player2, "SameName", &tunnels, start()).is_err());
}

#[test]
fn test_game_teammate_selection() {
    let fuiz = create_test_fuiz();
    let team_options = TeamOptions {
        size: 2,
        assign_random: false,
    };
    let options = Options {
        teams: Some(team_options),
        ..Default::default()
    };
    let host_id = Id::new();
    let mut game = Game::new(fuiz, options, host_id, &test_settings());

    let player1 = Id::new();
    let player2 = Id::new();
    let tunnels = open_to(&[player1, player2]);

    // Add and name players
    assert!(game.add_unassigned(player1, &tunnels, start()).is_ok());
    assert!(game.add_unassigned(player2, &tunnels, start()).is_ok());
    assert!(game.assign_player_name(player1, "Player1", &tunnels, start()).is_ok());
    assert!(game.assign_player_name(player2, "Player2", &tunnels, start()).is_ok());

    // Send teammate selection message
    let teammate_msg = IncomingMessage::Player(IncomingPlayerMessage::ChooseTeammates(vec!["Player2".to_string()]));

    game.receive_message(player1, teammate_msg, &tunnels, start());

    assert_eq!(game.team_manager.as_ref().unwrap().get_preferences(player1), Some(vec![player2]));
}

#[test]
fn test_game_leaderboard_state_transition() {
    let fuiz = create_test_fuiz();
    let options = Options::default(); // leaderboard enabled by default
    let host_id = Id::new();
    let mut game = Game::new(fuiz, options, host_id, &test_settings());

    let tunnels = open_to(&[]);

    // Start the game
    game.play(&tunnels, start());
    assert!(matches!(game.state, State::Slide(_)));

    // Finish the slide - should show leaderboard
    game.finish_slide(&tunnels, start());
    assert!(matches!(game.state, State::Leaderboard(_)));

    // Send next from host while in leaderboard state
    let next_msg = IncomingMessage::Host(IncomingHostMessage::Next);
    game.receive_message(host_id, next_msg, &tunnels, start());

    // Should be done (since only one slide in test fuiz)
    assert!(matches!(game.state, State::Done));
}

#[test]
fn test_game_no_leaderboard_option() {
    let fuiz = create_test_fuiz();
    let options = Options {
        no_leaderboard: true,
        ..Default::default()
    };
    let host_id = Id::new();
    let mut game = Game::new(fuiz, options, host_id, &test_settings());

    let tunnels = open_to(&[]);

    // Start the game
    game.play(&tunnels, start());
    assert!(matches!(game.state, State::Slide(_)));

    // Finish the slide - should skip leaderboard and go to done
    game.finish_slide(&tunnels, start());
    assert!(matches!(game.state, State::Done));
}

#[test]
fn test_game_host_index_message() {
    let fuiz = create_test_fuiz();
    let options = Options::default();
    let host_id = Id::new();
    let mut game = Game::new(fuiz, options, host_id, &test_settings());

    let tunnels = open_to(&[]);

    // Start the game
    game.play(&tunnels, start());

    // Send index message from host (should be handled by slide state)
    let index_msg = IncomingMessage::Host(IncomingHostMessage::Index(0));
    game.receive_message(host_id, index_msg, &tunnels, start());
}

#[test]
fn test_game_update_session_host() {
    let fuiz = create_test_fuiz();
    let options = Options::default();
    let host_id = Id::new();
    let mut game = Game::new(fuiz, options, host_id, &test_settings());

    let tunnels = open_to(&[host_id]);

    // Update host session
    let effects = game.update_session(host_id, &tunnels, start());

    assert_eq!(effects.len(), 2);
}

#[test]
fn test_game_update_session_player_with_team() {
    // Create a game with teams and manually add a team player
    let fuiz = create_test_fuiz();
    let team_options = TeamOptions {
        size: 2,
        assign_random: false,
    };
    let options = Options {
        teams: Some(team_options),
        ..Default::default()
    };
    let host_id = Id::new();
    let mut game = Game::new(fuiz, options, host_id, &test_settings());

    let player_id = Id::new();
    let tunnels = open_to(&[player_id]);

    // Add player and assign name
    assert!(game.add_unassigned(player_id, &tunnels, start()).is_ok());
    assert!(game.assign_player_name(player_id, "TestPlayer", &tunnels, start()).is_ok());

    // Update player session - should work with team manager
    game.update_session(player_id, &tunnels, start());
}

#[test]
fn test_game_update_session_locked_unassigned() {
    let fuiz = create_test_fuiz();
    let options = Options::default();
    let host_id = Id::new();
    let mut game = Game::new(fuiz, options, host_id, &test_settings());

    let unassigned_id = Id::new();
    let tunnels = open_to(&[unassigned_id]);

    // Add unassigned player
    game.locked = true; // Lock game first
    assert!(game.add_unassigned(unassigned_id, &tunnels, start()).is_ok());

    // Update session - should do nothing since locked and unassigned
    game.update_session(unassigned_id, &tunnels, start());
}

#[test]
fn test_game_waiting_screen_names_team_display() {
    // Create a game with team manager in TeamDisplay state
    let fuiz = create_test_fuiz();
    let team_options = TeamOptions {
        size: 2,
        assign_random: false,
    };
    let options = Options {
        teams: Some(team_options),
        ..Default::default()
    };
    let host_id = Id::new();
    let mut game = Game::new(fuiz, options, host_id, &test_settings());

    // Set state to TeamDisplay
    game.state = State::TeamDisplay;

    let tunnels = open_to(&[]);

    // Should use team names when in TeamDisplay state with team manager
    let names = game.waiting_screen_names(&tunnels);
    assert!(names.items().is_empty()); // No teams yet
}

#[test]
fn test_game_state_message_team_display() {
    // Create a game in TeamDisplay state
    let fuiz = create_test_fuiz();
    let team_options = TeamOptions {
        size: 2,
        assign_random: false,
    };
    let options = Options {
        teams: Some(team_options),
        ..Default::default()
    };
    let host_id = Id::new();
    let mut game = Game::new(fuiz, options, host_id, &test_settings());

    // Set state to TeamDisplay
    game.state = State::TeamDisplay;

    let player_id = Id::new();
    let tunnels = open_to(&[]);

    // Test TeamDisplay state message for player
    let state_msg = game.state_message(player_id, ValueKind::Player, &tunnels, start());
    assert!(matches!(state_msg, Sync::Game(SyncMessage::FindTeam(_))));

    // Test TeamDisplay state message for host
    let state_msg = game.state_message(host_id, ValueKind::Host, &tunnels, start());
    assert!(matches!(
        state_msg,
        Sync::Game(SyncMessage::TeamDisplay(_))
    ));
}

#[test]
fn test_game_state_message_done_unassigned() {
    // Create game in Done state
    let fuiz = create_test_fuiz();
    let options = Options::default();
    let host_id = Id::new();
    let mut game = Game::new(fuiz, options, host_id, &test_settings());

    // Set state to Done
    game.state = State::Done;

    let unassigned_id = Id::new();
    let tunnels = open_to(&[]);

    let state_msg = game.state_message(unassigned_id, ValueKind::Unassigned, &tunnels, start());
    assert!(matches!(state_msg, Sync::Game(SyncMessage::NotAllowed)));
}

#[test]
fn test_game_receive_message_done_state() {
    // Create game in Done state
    let fuiz = create_test_fuiz();
    let options = Options::default();
    let host_id = Id::new();
    let mut game = Game::new(fuiz, options, host_id, &test_settings());

    // Set state to Done
    game.state = State::Done;

    let tunnels = open_to(&[]);

    // Send Next message in Done state - should call mark_as_done
    let next_msg = IncomingMessage::Host(IncomingHostMessage::Next);
    game.receive_message(host_id, next_msg, &tunnels, start());

    // State should still be Done but mark_as_done was called
    assert!(matches!(game.state, State::Done));
}

#[test]
fn test_game_receive_alarm_mismatched_slide() {
    let fuiz = create_test_fuiz();
    let options = Options::default();
    let host_id = Id::new();
    let mut game = Game::new(fuiz, options, host_id, &test_settings());

    // Start game to get to a slide
    let tunnels = open_to(&[]);
    game.play(&tunnels, start());

    // Send alarm for wrong slide index - should be ignored
    let alarm = AlarmMessage::MultipleChoice(
        ProceedFromSlideIntoSlide {
            index: 999, // Wrong index
            to: SlideState::Question,
        },
    );

    game.receive_alarm(&alarm, &tunnels, start());

    // State should not change (still in slide 0, not 999)
    assert!(matches!(game.state, State::Slide(_)));
}

#[test]
fn test_game_empty_fuiz() {
    // Test game with no slides
    let fuiz = Fuiz { title: "Empty Quiz".to_string(), slides: vec![] };

    let options = Options::default();
    let host_id = Id::new();
    let mut game = Game::new(fuiz, options, host_id, &test_settings());

    let tunnels = open_to(&[]);

    // Play should immediately go to Done state since no slides
    game.play(&tunnels, start());
    assert!(matches!(game.state, State::Done));
}

#[test]
fn test_game_with_show_answers_option() {
    let fuiz = create_test_fuiz();
    let options = Options {
        show_answers: true,
        ..Default::default()
    };
    let host_id = Id::new();
    let game = Game::new(fuiz, options, host_id, &test_settings());

    assert!(game.options.show_answers);

    // Test that show_answers is reflected in metadata
    let player_id = Id::new();
    let effect = game.update_player_with_options(player_id);
    assert!(matches!(
        effect,
        Effect::Sync {
            to,
            message: Sync::Game(SyncMessage::Metainfo(MetainfoMessage::Player { score: 0, show_answers: true })),
        } if to == player_id
    ));
}

#[test]
fn test_player_message_types() {
    // Test different player message types can be constructed
    let _string_answer = IncomingMessage::Player(IncomingPlayerMessage::StringAnswer("answer".to_string()));
    let _array_answer = IncomingMessage::Player(IncomingPlayerMessage::StringArrayAnswer(vec![
        "a".to_string(),
        "b".to_string(),
    ]));
    // Just verify they can be constructed
}

#[test]
fn test_game_play_with_team_formation() {
    let fuiz = create_test_fuiz();
    let team_options = TeamOptions {
        size: 2,
        assign_random: false,
    };
    let options = Options {
        teams: Some(team_options),
        ..Default::default()
    };
    let host_id = Id::new();
    let mut game = Game::new(fuiz, options, host_id, &test_settings());

    let player1 = Id::new();
    let player2 = Id::new();
    let tunnels = open_to(&[player1, player2]);

    // Add players and assign names
    assert!(game.add_unassigned(player1, &tunnels, start()).is_ok());
    assert!(game.add_unassigned(player2, &tunnels, start()).is_ok());
    assert!(game.assign_player_name(player1, "Player1", &tunnels, start()).is_ok());
    assert!(game.assign_player_name(player2, "Player2", &tunnels, start()).is_ok());


    // First play call should transition to TeamDisplay
    game.play(&tunnels, start());
    assert!(matches!(game.state, State::TeamDisplay));

    // Second play call should start the actual game
    game.play(&tunnels, start());
    assert!(matches!(game.state, State::Slide(_)));
}

#[test]
fn test_game_announce_summary() {
    let fuiz = create_test_fuiz();
    let options = Options::default();
    let host_id = Id::new();
    let mut game = Game::new(fuiz, options, host_id, &test_settings());

    let player_id = Id::new();
    let tunnels = open_to(&[host_id, player_id]);

    // Add a player
    assert!(game.add_unassigned(player_id, &tunnels, start()).is_ok());
    assert!(game.assign_player_name(player_id, "TestPlayer", &tunnels, start()).is_ok());

    // Call announce_summary directly
    game.announce_summary(&tunnels);

    assert!(matches!(game.state, State::Done));
}

#[test]
fn test_game_announce_summary_no_leaderboard() {
    let fuiz = create_test_fuiz();
    let options = Options {
        no_leaderboard: true,
        ..Default::default()
    };
    let host_id = Id::new();
    let mut game = Game::new(fuiz, options, host_id, &test_settings());

    let player_id = Id::new();
    let tunnels = open_to(&[host_id, player_id]);

    // Add a player
    assert!(game.add_unassigned(player_id, &tunnels, start()).is_ok());
    assert!(game.assign_player_name(player_id, "TestPlayer", &tunnels, start()).is_ok());

    // Call announce_summary with no_leaderboard option
    game.announce_summary(&tunnels);

    assert!(matches!(game.state, State::Done));
}

#[test]
fn test_game_finish_slide_multiple_slides() {
    // Create a fuiz with multiple slides
    let fuiz = create_multi_slide_fuiz();
    let options = Options {
        no_leaderboard: true, // Skip leaderboard to test direct slide transition
        ..Default::default()
    };
    let host_id = Id::new();
    let mut game = Game::new(fuiz, options, host_id, &test_settings());

    let tunnels = open_to(&[]);

    // Start the game
    game.play(&tunnels, start());
    assert!(matches!(game.state, State::Slide(_)));

    // Finish first slide - should go to second slide
    game.finish_slide(&tunnels, start());
    assert!(matches!(game.state, State::Slide(_)));

    // Finish second slide - should be done
    game.finish_slide(&tunnels, start());
    assert!(matches!(game.state, State::Done));
}

#[test]
fn test_game_leaderboard_state_next_message() {
    // Create a fuiz with multiple slides to test leaderboard -> next slide transition
    let fuiz = create_multi_slide_fuiz();
    let options = Options::default(); // Leaderboard enabled
    let host_id = Id::new();
    let mut game = Game::new(fuiz, options, host_id, &test_settings());

    let tunnels = open_to(&[]);

    // Start the game
    game.play(&tunnels, start());
    assert!(matches!(game.state, State::Slide(_)));

    // Finish first slide - should show leaderboard
    game.finish_slide(&tunnels, start());
    assert!(matches!(game.state, State::Leaderboard(0)));

    // Send next from host - should advance to slide 1
    let next_msg = IncomingMessage::Host(IncomingHostMessage::Next);
    game.receive_message(host_id, next_msg, &tunnels, start());
    assert!(matches!(game.state, State::Slide(_)));

    // Finish second slide - should show leaderboard again
    game.finish_slide(&tunnels, start());
    assert!(matches!(game.state, State::Leaderboard(1)));

    // Send next from host - should be done (no more slides)
    let next_msg = IncomingMessage::Host(IncomingHostMessage::Next);
    game.receive_message(host_id, next_msg, &tunnels, start());
    assert!(matches!(game.state, State::Done));
}

#[test]
fn test_game_receive_message_name_request_locked() {
    let fuiz = create_test_fuiz();
    let options = Options::default();
    let host_id = Id::new();
    let mut game = Game::new(fuiz, options, host_id, &test_settings());

    let unassigned_id = Id::new();
    let tunnels = open_to(&[unassigned_id]);

    // Add unassigned player and lock the game
    assert!(game.add_unassigned(unassigned_id, &tunnels, start()).is_ok());
    game.locked = true;


    // Try to send name request - should be ignored due to lock
    let name_msg = IncomingMessage::Unassigned(IncomingUnassignedMessage::NameRequest("TestName".to_string()));
    game.receive_message(unassigned_id, name_msg, &tunnels, start());

    // Should still be unassigned
    let watcher_value = game.watchers.get_watcher_value(unassigned_id);
    assert!(matches!(watcher_value, Some(Value::Unassigned)));
}

#[test]
fn test_game_receive_message_name_request_with_random_names() {
    let fuiz = create_test_fuiz();
    let options = Options {
        random_names: Some(NameStyle::default()),
        ..Default::default()
    };
    let host_id = Id::new();
    let mut game = Game::new(fuiz, options, host_id, &test_settings());

    let unassigned_id = Id::new();
    let tunnels = open_to(&[unassigned_id]);

    // Add unassigned player
    assert!(game.add_unassigned(unassigned_id, &tunnels, start()).is_ok());


    // Try to send name request when random names are enabled - should be ignored
    let name_msg = IncomingMessage::Unassigned(IncomingUnassignedMessage::NameRequest("TestName".to_string()));
    game.receive_message(unassigned_id, name_msg, &tunnels, start());

    // Should already be a player due to random name assignment in add_unassigned
    let watcher_value = game.watchers.get_watcher_value(unassigned_id);
    assert!(matches!(watcher_value, Some(Value::Player(_))));
}

#[test]
fn test_game_receive_message_name_assignment_error() {
    let fuiz = create_test_fuiz();
    let options = Options::default();
    let host_id = Id::new();
    let mut game = Game::new(fuiz, options, host_id, &test_settings());

    let player1 = Id::new();
    let player2 = Id::new();
    let tunnels = open_to(&[player1, player2]);

    // Add two unassigned players
    assert!(game.add_unassigned(player1, &tunnels, start()).is_ok());
    assert!(game.add_unassigned(player2, &tunnels, start()).is_ok());


    // First player takes a name
    let name_msg1 = IncomingMessage::Unassigned(IncomingUnassignedMessage::NameRequest("SameName".to_string()));
    game.receive_message(player1, name_msg1, &tunnels, start());

    // Second player tries to take the same name - should get error message
    let name_msg2 = IncomingMessage::Unassigned(IncomingUnassignedMessage::NameRequest("SameName".to_string()));
    game.receive_message(player2, name_msg2, &tunnels, start());

    // Second player should still be unassigned
    let watcher_value = game.watchers.get_watcher_value(player2);
    assert!(matches!(watcher_value, Some(Value::Unassigned)));
}

#[test]
fn test_game_state_message_waiting_screen_with_team_selection() {
    let fuiz = create_test_fuiz();
    let team_options = TeamOptions {
        size: 2,
        assign_random: false, // Non-random assignment
    };
    let options = Options {
        teams: Some(team_options),
        ..Default::default()
    };
    let host_id = Id::new();
    let mut game = Game::new(fuiz, options, host_id, &test_settings());

    let player1 = Id::new();
    let player2 = Id::new();
    let tunnels = open_to(&[player1, player2]);

    // Add players
    assert!(game.add_unassigned(player1, &tunnels, start()).is_ok());
    assert!(game.add_unassigned(player2, &tunnels, start()).is_ok());
    assert!(game.assign_player_name(player1, "Player1", &tunnels, start()).is_ok());
    assert!(game.assign_player_name(player2, "Player2", &tunnels, start()).is_ok());

    // Should return teammate selection message for players in waiting screen with non-random teams
    let state_msg = game.state_message(player1, ValueKind::Player, &tunnels, start());
    assert!(matches!(
        state_msg,
        Sync::Game(SyncMessage::ChooseTeammates { .. })
    ));
}

#[test]
fn test_game_state_message_leaderboard_host() {
    let fuiz = create_test_fuiz();
    let options = Options::default();
    let host_id = Id::new();
    let mut game = Game::new(fuiz, options, host_id, &test_settings());

    // Set to leaderboard state
    game.state = State::Leaderboard(0);

    let tunnels = open_to(&[]);

    let state_msg = game.state_message(host_id, ValueKind::Host, &tunnels, start());
    assert!(matches!(
        state_msg,
        Sync::Game(SyncMessage::Leaderboard { .. })
    ));
}

#[test]
fn test_game_state_message_leaderboard_unassigned() {
    let fuiz = create_test_fuiz();
    let options = Options::default();
    let host_id = Id::new();
    let mut game = Game::new(fuiz, options, host_id, &test_settings());

    // Set to leaderboard state
    game.state = State::Leaderboard(0);

    let unassigned_id = Id::new();
    let tunnels = open_to(&[]);

    let state_msg = game.state_message(unassigned_id, ValueKind::Unassigned, &tunnels, start());
    assert!(matches!(
        state_msg,
        Sync::Game(SyncMessage::Leaderboard { .. })
    ));
}

#[test]
fn test_game_state_message_done_host() {
    let fuiz = create_test_fuiz();
    let options = Options::default();
    let host_id = Id::new();
    let mut game = Game::new(fuiz, options, host_id, &test_settings());

    // Set to done state
    game.state = State::Done;

    let tunnels = open_to(&[]);

    let state_msg = game.state_message(host_id, ValueKind::Host, &tunnels, start());
    assert!(matches!(
        state_msg,
        Sync::Game(SyncMessage::Summary(SummaryMessage::Host { .. }))
    ));
}

#[test]
fn test_game_state_message_done_player_no_leaderboard() {
    let fuiz = create_test_fuiz();
    let options = Options {
        no_leaderboard: true,
        ..Default::default()
    };
    let host_id = Id::new();
    let mut game = Game::new(fuiz, options, host_id, &test_settings());

    // Set to done state
    game.state = State::Done;

    let player_id = Id::new();
    let tunnels = open_to(&[]);

    let state_msg = game.state_message(player_id, ValueKind::Player, &tunnels, start());
    // Should have None score when no_leaderboard is true
    if let Sync::Game(SyncMessage::Summary(SummaryMessage::Player { score, .. })) = state_msg {
        assert!(score.is_none());
    } else {
        panic!("Expected Player summary message");
    }
}

#[test]
fn test_game_update_session_nonexistent_watcher() {
    let fuiz = create_test_fuiz();
    let options = Options::default();
    let host_id = Id::new();
    let mut game = Game::new(fuiz, options, host_id, &test_settings());

    let nonexistent_id = Id::new();
    let tunnels = open_to(&[]);

    // Should not panic when updating session for nonexistent watcher
    game.update_session(nonexistent_id, &tunnels, start());
}

#[test]
fn test_game_update_player_with_name_empty_name() {
    let fuiz = create_test_fuiz();
    let options = Options::default();
    let host_id = Id::new();
    let mut game = Game::new(fuiz, options, host_id, &test_settings());

    let player_id = Id::new();
    let tunnels = open_to(&[player_id]);

    // Add as unassigned first
    assert!(game.add_unassigned(player_id, &tunnels, start()).is_ok());

    // Update with empty name - should not announce to others
    game.update_player_with_name(player_id, "", &tunnels, start());
}

#[test]
fn test_game_update_player_with_name_team_random_assignment() {
    let fuiz = create_test_fuiz();
    let team_options = TeamOptions {
        size: 2,
        assign_random: true, // Random assignment
    };
    let options = Options {
        teams: Some(team_options),
        ..Default::default()
    };
    let host_id = Id::new();
    let mut game = Game::new(fuiz, options, host_id, &test_settings());

    let player_id = Id::new();
    let tunnels = open_to(&[player_id]);

    // Add as unassigned first
    assert!(game.add_unassigned(player_id, &tunnels, start()).is_ok());

    // Update with name - should not announce teammate selection messages for random assignment
    game.update_player_with_name(player_id, "TestPlayer", &tunnels, start());
}

#[test]
fn test_ghost_message_follows() {
    let ghost_msg = IncomingMessage::Newcomer(IncomingGhostMessage::DemandId);
    // Nobody in the game sends such messages
    assert!(!ghost_msg.follows(ValueKind::Host));
    assert!(matches!(ghost_msg, IncomingMessage::Newcomer(_)));

    let claim_msg = IncomingMessage::Newcomer(IncomingGhostMessage::ClaimId(Id::new()));
    assert!(matches!(claim_msg, IncomingMessage::Newcomer(_)));
}

#[test]
fn test_game_choose_teammates_message() {
    let fuiz = create_test_fuiz();
    let team_options = TeamOptions {
        size: 3,
        assign_random: false,
    };
    let options = Options {
        teams: Some(team_options),
        ..Default::default()
    };
    let host_id = Id::new();
    let mut game = Game::new(fuiz, options, host_id, &test_settings());

    let player1 = Id::new();
    let player2 = Id::new();
    let tunnels = open_to(&[player1, player2]);

    // Add players
    assert!(game.add_unassigned(player1, &tunnels, start()).is_ok());
    assert!(game.add_unassigned(player2, &tunnels, start()).is_ok());
    assert!(game.assign_player_name(player1, "Player1", &tunnels, start()).is_ok());
    assert!(game.assign_player_name(player2, "Player2", &tunnels, start()).is_ok());

    if let Some(team_manager) = &game.team_manager {
        let message = game.choose_teammates_message(player1, team_manager, &tunnels);
        assert!(matches!(message, UpdateMessage::ChooseTeammates { .. }));
    }
}

#[test]
fn test_incoming_host_message_index() {
    let index_msg = IncomingHostMessage::Index(5);
    assert!(matches!(index_msg, IncomingHostMessage::Index(5)));

    let lock_msg = IncomingHostMessage::Lock(true);
    assert!(matches!(lock_msg, IncomingHostMessage::Lock(true)));
}

#[test]
fn test_team_options_with_invalid_size() {
    let invalid_large = TeamOptions {
        size: 10, // Above max of 5
        assign_random: false,
    };
    assert!(invalid_large.validate_with(&test_settings()).is_err());
}

#[test]
fn test_game_options_validation() {
    let valid_options = Options {
        random_names: Some(NameStyle::default()),
        show_answers: true,
        no_leaderboard: false,
        teams: Some(TeamOptions {
            size: 3,
            assign_random: true,
        }),
    };
    assert!(valid_options.validate_with(&test_settings()).is_ok());

    let invalid_options = Options {
        random_names: Some(NameStyle::default()),
        show_answers: true,
        no_leaderboard: false,
        teams: Some(TeamOptions {
            size: 0, // Invalid
            assign_random: true,
        }),
    };
    assert!(invalid_options.validate_with(&test_settings()).is_err());
}

#[test]
fn test_game_waiting_screen_names_with_players() {
    let fuiz = create_test_fuiz();
    let options = Options::default();
    let host_id = Id::new();
    let mut game = Game::new(fuiz, options, host_id, &test_settings());

    let player1 = Id::new();
    let player2 = Id::new();
    let tunnels = open_to(&[player1, player2]);

    // Add players with names to test the actual filtering logic
    assert!(game.add_unassigned(player1, &tunnels, start()).is_ok());
    assert!(game.add_unassigned(player2, &tunnels, start()).is_ok());
    assert!(game.assign_player_name(player1, "Player1", &tunnels, start()).is_ok());
    assert!(game.assign_player_name(player2, "Player2", &tunnels, start()).is_ok());

    let names = game.waiting_screen_names(&tunnels);
    assert_eq!(names.items().len(), 2);
    assert!(names.items().contains(&"Player1".to_string()));
    assert!(names.items().contains(&"Player2".to_string()));
}

#[test]
fn test_game_leaderboard_message() {
    let fuiz = create_test_fuiz();
    let options = Options::default();
    let host_id = Id::new();
    let mut game = Game::new(fuiz, options, host_id, &test_settings());

    let player_id = Id::new();
    let tunnels = open_to(&[player_id]);

    // Add a player
    assert!(game.add_unassigned(player_id, &tunnels, start()).is_ok());
    assert!(game.assign_player_name(player_id, "TestPlayer", &tunnels, start()).is_ok());

    // Test leaderboard_message function
    let leaderboard_msg = game.leaderboard_message();
    assert!(leaderboard_msg.current.items().is_empty()); // No scores yet
    assert!(leaderboard_msg.prior.items().is_empty());
}

#[test]
fn test_game_receive_alarm_valid_slide() {
    let fuiz = create_test_fuiz();
    let options = Options::default();
    let host_id = Id::new();
    let mut game = Game::new(fuiz, options, host_id, &test_settings());

    let tunnels = open_to(&[]);

    // Start the game to get to slide 0
    game.play(&tunnels, start());

    // Send alarm for correct slide index
    let alarm = AlarmMessage::MultipleChoice(
        ProceedFromSlideIntoSlide {
            index: 0, // Correct index
            to: SlideState::Question,
        },
    );

    // Should handle the alarm for the current slide
    game.receive_alarm(&alarm, &tunnels, start());
}

#[test]
fn test_game_receive_alarm_non_slide_state() {
    let fuiz = create_test_fuiz();
    let options = Options::default();
    let host_id = Id::new();
    let mut game = Game::new(fuiz, options, host_id, &test_settings());

    // Keep game in WaitingScreen state
    let tunnels = open_to(&[]);

    // Send alarm while not in slide state - should be ignored
    let alarm = AlarmMessage::MultipleChoice(
        ProceedFromSlideIntoSlide {
            index: 0,
            to: SlideState::Question,
        },
    );

    game.receive_alarm(&alarm, &tunnels, start());
    // Should remain in WaitingScreen
    assert!(matches!(game.state, State::WaitingScreen));
}

#[test]
fn test_game_state_message_slide_state() {
    let fuiz = create_test_fuiz();
    let options = Options::default();
    let host_id = Id::new();
    let mut game = Game::new(fuiz, options, host_id, &test_settings());

    let player_id = Id::new();
    let tunnels = open_to(&[]);

    // Start the game to get to slide state
    game.play(&tunnels, start());

    // Test state message for slide state
    let state_msg = game.state_message(player_id, ValueKind::Player, &tunnels, start());
    // The message will be one of the slide-specific sync messages (MultipleChoice, TypeAnswer, or Order)
    assert!(matches!(
        state_msg,
        Sync::MultipleChoice(_) | Sync::TypeAnswer(_) | Sync::Order(_)
    ));
}

#[test]
fn test_game_update_session_player_individual() {
    let fuiz = create_test_fuiz();
    let options = Options::default(); // No teams
    let host_id = Id::new();
    let mut game = Game::new(fuiz, options, host_id, &test_settings());

    let player_id = Id::new();
    let tunnels = open_to(&[player_id]);

    // Add player
    assert!(game.add_unassigned(player_id, &tunnels, start()).is_ok());
    assert!(game.assign_player_name(player_id, "TestPlayer", &tunnels, start()).is_ok());

    // Update session for individual player (no teams)
    game.update_session(player_id, &tunnels, start());
}

#[test]
fn test_game_mark_as_done_with_watchers() {
    let fuiz = create_test_fuiz();
    let options = Options::default();
    let host_id = Id::new();
    let mut game = Game::new(fuiz, options, host_id, &test_settings());

    let player_id = Id::new();
    let tunnels = open_to(&[player_id, host_id]);

    // Add a player
    assert!(game.add_unassigned(player_id, &tunnels, start()).is_ok());
    assert!(game.assign_player_name(player_id, "TestPlayer", &tunnels, start()).is_ok());

    // Mark as done - should remove all watchers
    game.mark_as_done(&tunnels);

    assert!(matches!(game.state, State::Done));
}

#[test]
fn test_game_handle_unassigned_manual_names() {
    let fuiz = create_test_fuiz();
    let options = Options {
        random_names: None, // Manual name selection
        ..Default::default()
    };
    let host_id = Id::new();
    let mut game = Game::new(fuiz, options, host_id, &test_settings());

    let unassigned_id = Id::new();
    let tunnels = open_to(&[unassigned_id]);

    // Add unassigned - should prompt for name choice
    assert!(game.add_unassigned(unassigned_id, &tunnels, start()).is_ok());

    // Should still be unassigned waiting for name choice
    let watcher_value = game.watchers.get_watcher_value(unassigned_id);
    assert!(matches!(watcher_value, Some(Value::Unassigned)));
}

#[test]
fn test_game_assign_player_name_invalid() {
    let fuiz = create_test_fuiz();
    let options = Options::default();
    let host_id = Id::new();
    let mut game = Game::new(fuiz, options, host_id, &test_settings());

    let player_id = Id::new();
    let tunnels = open_to(&[player_id]);

    // Add unassigned player
    assert!(game.add_unassigned(player_id, &tunnels, start()).is_ok());

    // Try to assign an invalid name (empty string might be invalid depending on validation)
    let result = game.assign_player_name(player_id, "", &tunnels, start());
    // The result depends on the names module validation logic
    // This test exercises the error path if empty names are invalid
    if result.is_err() {
        // Should still be unassigned
        let watcher_value = game.watchers.get_watcher_value(player_id);
        assert!(matches!(watcher_value, Some(Value::Unassigned)));
    }
}

#[test]
fn test_game_alarm_message_variants() {
    // Test that we can construct different alarm message types
    let type_answer_alarm =
        AlarmMessage::TypeAnswer(ProceedFromSlideIntoSlide {
            index: 0,
            to: SlideState::Question,
        });
    assert!(matches!(type_answer_alarm, AlarmMessage::TypeAnswer(_)));

    let order_alarm = AlarmMessage::Order(ProceedFromSlideIntoSlide {
        index: 0,
        to: SlideState::Question,
    });
    assert!(matches!(order_alarm, AlarmMessage::Order(_)));
}
