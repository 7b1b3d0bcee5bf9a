//! What holds of a game from beginning to end.
use vstd::prelude::*;

use crate::fuiz::config::{SlideAction, SlideState};
use crate::fuiz::{multiple_choice, order, type_answer};
use crate::game::{alarm_index, Game, IncomingHostMessage, IncomingMessage, News, Profanity, State};
use crate::session::{Effect, Tunnels};
use crate::teams::{forming_partitions_the_players, no_name_found};
use crate::time::Timestamp;
use crate::watcher::{reachable_no_duplicates, Id, ValueKind};
use crate::AlarmMessage;

verus! {

/// How often the host has to move on at most until the game is over.
pub open spec fn moves_left(game: Game) -> int {
    let count = game.fuiz_config.slides@.len() as int;
    match game.state {
        State::WaitingScreen => 5 * count + 2,
        State::TeamDisplay => 5 * count + 1,
        State::Slide(current) => 5 * (count - current.index - 1) + current.state.phase().steps_left() + 2,
        State::Leaderboard(index) => 5 * (count - index - 1) + 1,
        State::Done => 0,
    }
}

/// Whether the screen that is shown belongs to a slide of the quiz, if to any.
pub open spec fn in_range(game: Game) -> bool {
    match game.state {
        State::Slide(current) => current.index < game.fuiz_config.slides@.len(),
        State::Leaderboard(index) => index < game.fuiz_config.slides@.len(),
        _ => true,
    }
}

proof fn lemma_went_to(before: Game, after: Game, index: int, tunnels: Tunnels, now: Timestamp, effects: Seq<Effect>)
    requires
        before.went_to(&after, index, tunnels, now, effects),
        index >= 0,
    ensures
        in_range(after),
        after.fuiz_config == before.fuiz_config,
        moves_left(after) <= 5 * (before.fuiz_config.slides@.len() - index) || moves_left(after) == 0,
{
    if index < before.fuiz_config.slides@.len() {
        assert(after.state is Slide);
        let current = after.state->Slide_0;
        assert(current.state.phase().steps_left() <= 3);
    }
}

proof fn lemma_slide_moves_on(before: Game, between: Game, id: Id, tunnels: Tunnels, now: Timestamp, action: SlideAction, first: Seq<Effect>)
    requires
        before.slide_took(&between, id, IncomingMessage::Host(IncomingHostMessage::Next), tunnels, now, action, first),
    ensures
        between.state is Slide,
        between.fuiz_config == before.fuiz_config,
        between.options == before.options,
        between.state->Slide_0.index == before.state->Slide_0.index,
        action == SlideAction::Stay ==> between.state->Slide_0.state.phase().steps_left()
            < before.state->Slide_0.state.phase().steps_left(),
        action == SlideAction::Next ==> between.state->Slide_0.state.phase().steps_left()
            == before.state->Slide_0.state.phase().steps_left(),
{
    let stage = before.spec_stage(tunnels, now, before.state->Slide_0.index);
    match (before.state->Slide_0.state, between.state->Slide_0.state) {
        (SlideState::MultipleChoice(a), SlideState::MultipleChoice(b)) => {
            if let Some(phase) = a.core.state.spec_next() {
                multiple_choice::phases_lead_on(a, b, phase, stage, first);
            }
        },
        (SlideState::TypeAnswer(a), SlideState::TypeAnswer(b)) => {
            if let Some(phase) = a.core.state.spec_next() {
                type_answer::phases_lead_on(a, b, phase, stage, first);
            }
        },
        (SlideState::Order(a), SlideState::Order(b)) => {
            if let Some(phase) = a.core.state.spec_next() {
                order::phases_lead_on(a, b, phase, stage, first);
            }
        },
        _ => {},
    }
}

/// Each time the host moves on, the game comes closer to its end, so it ends. The one exception is a
/// game that waits, where no name is left for a team.
pub proof fn moving_on_leads_to_the_end(
    before: Game,
    after: Game,
    host: Id,
    tunnels: Tunnels,
    now: Timestamp,
    effects: Seq<Effect>,
)
    requires
        before.watchers.values().contains_key(host),
        before.watchers.values()[host] is Host,
        in_range(before),
        !(before.state is Done),
        before.took_message(&after, host, IncomingMessage::Host(IncomingHostMessage::Next), tunnels, now, effects),
        !(before.state is WaitingScreen && after.state is WaitingScreen),
    ensures
        in_range(after),
        after.fuiz_config == before.fuiz_config,
        0 <= moves_left(after) < moves_left(before),
{
    let message = IncomingMessage::Host(IncomingHostMessage::Next);
    assert(before.screen_took(&after, host, message, tunnels, now, effects));
    match before.state {
        State::WaitingScreen | State::TeamDisplay => {
            if !(before.fuiz_config.slides@.len() > 0 && before.team_manager is Some && before.state is WaitingScreen) {
                lemma_went_to(before, after, 0, tunnels, now, effects);
            }
        },
        State::Slide(current) => {
            let (between, action, first) = choose|between: Game, action: SlideAction, first: Seq<Effect>| {
                &&& #[trigger] before.slide_took(&between, host, message, tunnels, now, action, first)
                &&& match action {
                    SlideAction::Stay => after == between && effects == first,
                    SlideAction::Next => between.finished(&after, tunnels, now, effects),
                }
            };
            lemma_slide_moves_on(before, between, host, tunnels, now, action, first);
            if action == SlideAction::Next && between.options.no_leaderboard {
                lemma_went_to(between, after, current.index + 1, tunnels, now, effects);
            }
        },
        State::Leaderboard(index) => {
            lemma_went_to(before, after, index + 1, tunnels, now, effects);
        },
        State::Done => {},
    }
}

/// Where there are teams, they are shown first, and nothing is scheduled; the first slide follows. A
/// game goes on waiting only where every name drawn for a team was refused.
pub proof fn teams_are_shown_before_the_first_slide(
    before: Game,
    between: Game,
    after: Game,
    tunnels: Tunnels,
    now: Timestamp,
    effects: Seq<Effect>,
    later_tunnels: Tunnels,
    later: Timestamp,
    later_effects: Seq<Effect>,
)
    requires
        before.state is WaitingScreen,
        before.team_manager is Some,
        before.fuiz_config.slides@.len() > 0,
        before.started(&between, tunnels, now, effects),
        between.started(&after, later_tunnels, later, later_effects),
    ensures
        between.state is TeamDisplay || between.state is WaitingScreen,
        between.state is TeamDisplay ==> {
            &&& between.told_each(News::Teams, tunnels@, effects)
            &&& forall|i: int| 0 <= i < effects.len() ==> !((#[trigger] effects[i]) is Schedule)
            &&& shows_slide(after, 0)
        },
        between.state is WaitingScreen ==> exists|team_id: Id| #[trigger]
            no_name_found(before.team_manager->0.style(), between.names, team_id, Profanity::Censor),
{
    if between.state is TeamDisplay {
        let ids = between.watchers.participants(tunnels@);
        assert forall|i: int| 0 <= i < effects.len() implies !((#[trigger] effects[i]) is Schedule) by {
            assert(between.is_told(News::Teams, effects[i], ids[i]));
        }
    }
}

// ---- a whole game ----

/// Whether a message leads from one game to another, at some time and with some connections open.
pub open spec fn led_by_message(before: Game, after: Game, sender: Id, message: IncomingMessage) -> bool {
    exists|tunnels: Tunnels, now: Timestamp, effects: Seq<Effect>| #[trigger]
        before.took_message(&after, sender, message, tunnels, now, effects)
}

/// Whether the host moves on, from the screen that is shown if any is named.
pub open spec fn is_press(game: Game, host: Id, turn: (Id, IncomingMessage)) -> bool {
    ||| turn == (host, IncomingMessage::Host(IncomingHostMessage::Next))
    ||| turn == (host, IncomingMessage::Host(IncomingHostMessage::NextFrom(game.screen())))
}

/// Whether the message would move on from a screen that is not shown.
pub open spec fn is_stale(game: Game, message: IncomingMessage) -> bool {
    message matches IncomingMessage::Host(IncomingHostMessage::NextFrom(screen)) && screen != game.screen()
}

/// Whether each message leads from one of the games to the next, and all are from players, of any
/// shape, or the host moving on, maybe from a screen that was left.
pub open spec fn is_play(games: Seq<Game>, turns: Seq<(Id, IncomingMessage)>, host: Id) -> bool {
    &&& games.len() == turns.len() + 1
    &&& forall|i: int|
        0 <= i < turns.len() ==> {
            &&& is_press(games[i], host, #[trigger] turns[i]) || turns[i].1 is Player || is_stale(games[i], turns[i].1)
            &&& led_by_message(games[i], games[i + 1], turns[i].0, turns[i].1)
        }
}

/// How often the host moves on.
pub open spec fn presses(games: Seq<Game>, turns: Seq<(Id, IncomingMessage)>, host: Id) -> nat
    decreases turns.len(),
{
    if turns.len() == 0 {
        0
    } else {
        presses(games.drop_last(), turns.drop_last(), host) + if is_press(
            games[turns.len() - 1],
            host,
            turns.last(),
        ) {
            1nat
        } else {
            0nat
        }
    }
}

/// Whether slide `k` is shown.
pub open spec fn shows_slide(game: Game, k: int) -> bool {
    game.state matches State::Slide(current) && current.index == k
}

/// Whether slide `k` was shown in one of the games up to game `i`.
pub open spec fn was_shown(games: Seq<Game>, i: int, k: int) -> bool {
    exists|j: int| 0 <= j <= i && #[trigger] shows_slide(games[j], k)
}

/// How many slides have been shown, the one that is shown among them.
pub open spec fn slides_shown(game: Game) -> int {
    match game.state {
        State::WaitingScreen | State::TeamDisplay => 0,
        State::Slide(current) => current.index + 1,
        State::Leaderboard(index) => index + 1,
        State::Done => game.fuiz_config.slides@.len() as int,
    }
}

/// Whether a game is under way, with this host.
pub open spec fn is_under_way(game: Game, host: Id) -> bool {
    &&& !(game.state is WaitingScreen)
    &&& in_range(game)
    &&& game.watchers.values().contains_key(host)
    &&& game.watchers.values()[host] is Host
    &&& game.state is TeamDisplay ==> game.fuiz_config.slides@.len() > 0
}

proof fn lemma_start(before: Game, after: Game, host: Id, tunnels: Tunnels, now: Timestamp, effects: Seq<Effect>)
    requires
        before.wf(),
        before.state is WaitingScreen,
        before.watchers.values().contains_key(host),
        before.watchers.values()[host] is Host,
        before.started(&after, tunnels, now, effects),
        after.names.wf(),
        !(after.state is WaitingScreen),
    ensures
        is_under_way(after, host),
        after.fuiz_config == before.fuiz_config,
        moves_left(after) <= 10 * after.fuiz_config.slides@.len(),
        slides_shown(after) == 0 || (slides_shown(after) == 1 && shows_slide(after, 0)),
{
    if before.fuiz_config.slides@.len() > 0 && before.team_manager is Some {
        let done = choose|done: bool| {
            &&& #[trigger] before.team_manager->0.finalized(
                after.team_manager->0,
                before.watchers,
                after.watchers,
                before.names,
                after.names,
                tunnels@,
                Profanity::Censor,
                done,
            )
            &&& if done {
                after.state == State::TeamDisplay && after.told_each(News::Teams, tunnels@, effects)
            } else {
                after.state == before.state && effects.len() == 0
            }
        };
        reachable_no_duplicates(before.watchers, ValueKind::Player, tunnels@);
        if before.team_manager->0.formed() is None {
            forming_partitions_the_players(
                before.team_manager->0,
                after.team_manager->0,
                before.watchers,
                after.watchers,
                before.names,
                after.names,
                tunnels@,
                Profanity::Censor,
                host,
            );
        }
    } else {
        lemma_went_to(before, after, 0, tunnels, now, effects);
    }
}

/// Moving on from a screen that was left changes nothing, and is not answered.
pub proof fn stale_presses_do_nothing(before: Game, after: Game, sender: Id, message: IncomingMessage)
    requires
        is_stale(before, message),
        led_by_message(before, after, sender, message),
    ensures
        after == before,
        after.screen() == before.screen(),
        forall|tunnels: Tunnels, now: Timestamp, effects: Seq<Effect>| #[trigger]
            before.took_message(&after, sender, message, tunnels, now, effects) ==> effects.len() == 0,
{
}

/// Of two equal presses that name the screen that was shown, the second does nothing, once the first
/// has led to another screen.
pub proof fn the_second_of_two_equal_presses_does_nothing(before: Game, between: Game, after: Game, host: Id)
    requires
        led_by_message(
            before,
            between,
            host,
            IncomingMessage::Host(IncomingHostMessage::NextFrom(before.screen())),
        ),
        between.screen() != before.screen(),
        led_by_message(
            between,
            after,
            host,
            IncomingMessage::Host(IncomingHostMessage::NextFrom(before.screen())),
        ),
    ensures
        after == between,
{
    stale_presses_do_nothing(
        between,
        after,
        host,
        IncomingMessage::Host(IncomingHostMessage::NextFrom(before.screen())),
    );
}

/// Moving on from the screen that is shown is moving on.
pub proof fn named_presses_are_presses(
    before: Game,
    after: Game,
    host: Id,
    tunnels: Tunnels,
    now: Timestamp,
    effects: Seq<Effect>,
)
    ensures
        before.took_message(
            &after,
            host,
            IncomingMessage::Host(IncomingHostMessage::NextFrom(before.screen())),
            tunnels,
            now,
            effects,
        ) <==> before.took_message(&after, host, IncomingMessage::Host(IncomingHostMessage::Next), tunnels, now, effects),
{
}

proof fn lemma_press(before: Game, after: Game, host: Id, said: IncomingMessage)
    requires
        is_under_way(before, host),
        is_press(before, host, (host, said)),
        led_by_message(before, after, host, said),
    ensures
        is_under_way(after, host),
        after.fuiz_config == before.fuiz_config,
        if before.state is Done {
            after.state is Done
        } else {
            moves_left(after) < moves_left(before)
        },
        slides_shown(after) == slides_shown(before) || (slides_shown(after) == slides_shown(before) + 1 && shows_slide(
            after,
            slides_shown(before),
        )),
{
    let message = IncomingMessage::Host(IncomingHostMessage::Next);
    let (tunnels, now, effects) = choose|tunnels: Tunnels, now: Timestamp, effects: Seq<Effect>| #[trigger]
        before.took_message(&after, host, said, tunnels, now, effects);
    named_presses_are_presses(before, after, host, tunnels, now, effects);
    assert(before.took_message(&after, host, message, tunnels, now, effects));
    assert(before.screen_took(&after, host, message, tunnels, now, effects));
    if let State::Slide(current) = before.state {
        let (between, action, first) = choose|between: Game, action: SlideAction, first: Seq<Effect>| {
            &&& #[trigger] before.slide_took(&between, host, message, tunnels, now, action, first)
            &&& match action {
                SlideAction::Stay => after == between && effects == first,
                SlideAction::Next => between.finished(&after, tunnels, now, effects),
            }
        };
        lemma_slide_moves_on(before, between, host, tunnels, now, action, first);
    }
    if !(before.state is Done) {
        moving_on_leads_to_the_end(before, after, host, tunnels, now, effects);
    }
}

proof fn lemma_player_turn(before: Game, after: Game, host: Id, player: Id, message: IncomingMessage)
    requires
        is_under_way(before, host),
        message is Player,
        led_by_message(before, after, player, message),
    ensures
        is_under_way(after, host),
        after.fuiz_config == before.fuiz_config,
        moves_left(after) <= moves_left(before),
        before.state is Done ==> after.state is Done,
        slides_shown(after) == slides_shown(before),
{
    let (tunnels, now, effects) = choose|tunnels: Tunnels, now: Timestamp, effects: Seq<Effect>| #[trigger]
        before.took_message(&after, player, message, tunnels, now, effects);
    players_change_no_screen(before, after, player, message, tunnels, now, effects);
    if before.state is Slide && before.watchers.values().contains_key(player) && message.spec_follows(
        before.watchers.values()[player].spec_kind(),
    ) && !(message->Player_0 is ChooseTeammates) {
        assert(before.screen_took(&after, player, message, tunnels, now, effects));
        let (between, action, first) = choose|between: Game, action: SlideAction, first: Seq<Effect>| {
            &&& #[trigger] before.slide_took(&between, player, message, tunnels, now, action, first)
            &&& match action {
                SlideAction::Stay => after == between && effects == first,
                SlideAction::Next => between.finished(&after, tunnels, now, effects),
            }
        };
        assert(action == SlideAction::Stay);
        let stage = before.spec_stage(tunnels, now, before.state->Slide_0.index);
        let said = message->Player_0;
        match (before.state->Slide_0.state, between.state->Slide_0.state) {
            (SlideState::MultipleChoice(a), SlideState::MultipleChoice(b)) => {
                multiple_choice::answers_only_bring_results(a, b, player, said, stage, first);
            },
            (SlideState::TypeAnswer(a), SlideState::TypeAnswer(b)) => {
                type_answer::answers_only_bring_results(a, b, player, said, stage, first);
            },
            (SlideState::Order(a), SlideState::Order(b)) => {
                order::answers_only_bring_results(a, b, player, said, stage, first);
            },
            _ => {},
        }
    }
}

proof fn lemma_play(games: Seq<Game>, turns: Seq<(Id, IncomingMessage)>, host: Id)
    requires
        is_play(games, turns, host),
        is_under_way(games[0], host),
        slides_shown(games[0]) == 0 || (slides_shown(games[0]) == 1 && shows_slide(games[0], 0)),
    ensures
        is_under_way(games.last(), host),
        games.last().fuiz_config == games[0].fuiz_config,
        games.last().state is Done || moves_left(games.last()) <= moves_left(games[0]) - presses(games, turns, host),
        forall|i: int| 0 <= i < games.len() ==> slides_shown(#[trigger] games[i]) <= slides_shown(games.last()),
        forall|k: int| 0 <= k < slides_shown(games.last()) ==> #[trigger] was_shown(games, games.len() - 1, k),
    decreases turns.len(),
{
    if turns.len() == 0 {
        assert(games.last() == games[0]);
        if slides_shown(games[0]) == 1 {
            assert(shows_slide(games[0], 0));
            assert(was_shown(games, 0, 0));
        }
    } else {
        let earlier = games.drop_last();
        let fewer = turns.drop_last();
        assert(is_play(earlier, fewer, host)) by {
            assert forall|i: int| 0 <= i < fewer.len() implies {
                &&& is_press(earlier[i], host, #[trigger] fewer[i]) || fewer[i].1 is Player || is_stale(
                    earlier[i],
                    fewer[i].1,
                )
                &&& led_by_message(earlier[i], earlier[i + 1], fewer[i].0, fewer[i].1)
            } by {
                assert(fewer[i] == turns[i]);
            }
        }
        lemma_play(earlier, fewer, host);
        let before = earlier.last();
        let after = games.last();
        let turn = turns[turns.len() - 1];
        assert(led_by_message(before, after, turn.0, turn.1));
        assert(games[turns.len() - 1] == before);
        if is_press(before, host, turn) {
            lemma_press(before, after, host, turn.1);
        } else if !(turn.1 is Player) {
            stale_presses_do_nothing(before, after, turn.0, turn.1);
        } else {
            lemma_player_turn(before, after, host, turn.0, turn.1);
        }
        assert forall|i: int| 0 <= i < games.len() implies slides_shown(#[trigger] games[i]) <= slides_shown(after) by {
            if i < earlier.len() {
                assert(earlier[i] == games[i]);
            }
        }
        assert forall|k: int| 0 <= k < slides_shown(after) implies #[trigger] was_shown(games, games.len() - 1, k) by {
            if k < slides_shown(before) {
                assert(was_shown(earlier, earlier.len() - 1, k));
                let j = choose|j: int| 0 <= j <= earlier.len() - 1 && #[trigger] shows_slide(earlier[j], k);
                assert(shows_slide(games[j], k));
            } else {
                assert(shows_slide(games[games.len() - 1], k));
            }
        }
    }
}

/// Whether every slide up to the one that is reached in game `i` was shown by then.
pub open spec fn all_before_were_shown(games: Seq<Game>, i: int) -> bool {
    forall|k: int| 0 <= k < slides_shown(games[i]) ==> #[trigger] was_shown(games, i, k)
}

proof fn lemma_play_up_to(games: Seq<Game>, turns: Seq<(Id, IncomingMessage)>, host: Id, i: int)
    requires
        is_play(games, turns, host),
        is_under_way(games[0], host),
        slides_shown(games[0]) == 0 || (slides_shown(games[0]) == 1 && shows_slide(games[0], 0)),
        0 <= i < games.len(),
    ensures
        all_before_were_shown(games, i),
        forall|j: int| 0 <= j <= i ==> slides_shown(#[trigger] games[j]) <= slides_shown(games[i]),
{
    let some = games.take(i + 1);
    let fewer = turns.take(i);
    assert(is_play(some, fewer, host)) by {
        assert forall|j: int| 0 <= j < fewer.len() implies {
            &&& is_press(some[j], host, #[trigger] fewer[j]) || fewer[j].1 is Player || is_stale(some[j], fewer[j].1)
            &&& led_by_message(some[j], some[j + 1], fewer[j].0, fewer[j].1)
        } by {
            assert(fewer[j] == turns[j]);
        }
    }
    lemma_play(some, fewer, host);
    assert(some.last() == games[i]);
    assert forall|k: int| 0 <= k < slides_shown(games[i]) implies #[trigger] was_shown(games, i, k) by {
        assert(was_shown(some, some.len() - 1, k));
        let j = choose|j: int| 0 <= j <= some.len() - 1 && #[trigger] shows_slide(some[j], k);
        assert(shows_slide(games[j], k));
    }
    assert forall|j: int| 0 <= j <= i implies slides_shown(#[trigger] games[j]) <= slides_shown(games[i]) by {
        assert(some[j] == games[j]);
    }
}

/// A game that is started is over once the host has moved on ten times for each slide, whatever players
/// say in between; and its slides are shown in order, none left out. The one exception is a game that
/// does not start, where no name is left for a team.
pub proof fn the_host_plays_to_the_end(
    before: Game,
    games: Seq<Game>,
    turns: Seq<(Id, IncomingMessage)>,
    host: Id,
    tunnels: Tunnels,
    now: Timestamp,
    effects: Seq<Effect>,
)
    requires
        before.wf(),
        before.state is WaitingScreen,
        before.watchers.values().contains_key(host),
        before.watchers.values()[host] is Host,
        is_play(games, turns, host),
        before.started(&games[0], tunnels, now, effects),
        games[0].names.wf(),
        !(games[0].state is WaitingScreen),
    ensures
        games.last().fuiz_config == before.fuiz_config,
        presses(games, turns, host) >= 10 * before.fuiz_config.slides@.len() ==> games.last().state is Done,
        forall|i: int, j: int|
            0 <= i <= j < games.len() ==> slides_shown(#[trigger] games[i]) <= slides_shown(#[trigger] games[j]),
        forall|i: int| 0 <= i < games.len() ==> #[trigger] all_before_were_shown(games, i),
        games.last().state is Done ==> forall|k: int|
            0 <= k < before.fuiz_config.slides@.len() ==> #[trigger] was_shown(games, games.len() - 1, k),
{
    lemma_start(before, games[0], host, tunnels, now, effects);
    lemma_play(games, turns, host);
    assert forall|i: int| 0 <= i < games.len() implies #[trigger] all_before_were_shown(games, i) by {
        lemma_play_up_to(games, turns, host, i);
    }
    assert forall|i: int, j: int| 0 <= i <= j < games.len() implies slides_shown(#[trigger] games[i]) <= slides_shown(
        #[trigger] games[j],
    ) by {
        lemma_play_up_to(games, turns, host, j);
    }
}

/// A game that is over stays over, whatever anyone says.
pub proof fn the_end_is_final(
    before: Game,
    after: Game,
    watcher_id: Id,
    message: IncomingMessage,
    tunnels: Tunnels,
    now: Timestamp,
    effects: Seq<Effect>,
)
    requires
        before.state is Done,
        before.took_message(&after, watcher_id, message, tunnels, now, effects),
    ensures
        after.state is Done,
{
}

/// Messages from strangers, and messages that are not the sender's to send, change nothing and are
/// not answered.
pub proof fn strangers_are_not_heard(
    before: Game,
    after: Game,
    watcher_id: Id,
    message: IncomingMessage,
    tunnels: Tunnels,
    now: Timestamp,
    effects: Seq<Effect>,
)
    requires
        !before.watchers.values().contains_key(watcher_id) || !message.spec_follows(
            before.watchers.values()[watcher_id].spec_kind(),
        ),
        before.took_message(&after, watcher_id, message, tunnels, now, effects),
    ensures
        after == before,
        effects.len() == 0,
{
}

/// While the game is locked, nobody gets a name by asking for one.
pub proof fn locked_games_give_no_names(
    before: Game,
    after: Game,
    watcher_id: Id,
    message: IncomingMessage,
    tunnels: Tunnels,
    now: Timestamp,
    effects: Seq<Effect>,
)
    requires
        before.locked,
        message is Unassigned,
        before.took_message(&after, watcher_id, message, tunnels, now, effects),
    ensures
        after == before,
        effects.len() == 0,
{
}

/// An alarm for another slide than the one that is shown changes nothing.
pub proof fn alarms_for_other_slides_do_nothing(
    before: Game,
    after: Game,
    alarm: AlarmMessage,
    tunnels: Tunnels,
    now: Timestamp,
    effects: Seq<Effect>,
)
    requires
        before.took_alarm(&after, alarm, tunnels, now, effects),
        before.state matches State::Slide(current) ==> current.index != alarm_index(alarm),
    ensures
        after == before,
        effects.len() == 0,
{
}

/// Only the host moves the game from screen to screen: what a player says changes no screen, but that
/// the results of a slide follow the last answer.
pub proof fn players_change_no_screen(
    before: Game,
    after: Game,
    player: Id,
    message: IncomingMessage,
    tunnels: Tunnels,
    now: Timestamp,
    effects: Seq<Effect>,
)
    requires
        message is Player,
        before.took_message(&after, player, message, tunnels, now, effects),
    ensures
        match before.state {
            State::Slide(current) => after.state is Slide && after.state->Slide_0.index == current.index,
            _ => after.state == before.state,
        },
        after.leaderboard == before.leaderboard,
{
    if before.state is Slide && before.watchers.values().contains_key(player) && message.spec_follows(
        before.watchers.values()[player].spec_kind(),
    ) && !(message->Player_0 is ChooseTeammates) {
        assert(before.screen_took(&after, player, message, tunnels, now, effects));
        let (between, action, first) = choose|between: Game, action: SlideAction, first: Seq<Effect>| {
            &&& #[trigger] before.slide_took(&between, player, message, tunnels, now, action, first)
            &&& match action {
                SlideAction::Stay => after == between && effects == first,
                SlideAction::Next => between.finished(&after, tunnels, now, effects),
            }
        };
        assert(action == SlideAction::Stay);
    }
}

} // verus!
