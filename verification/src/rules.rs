//! What the host and the players of a game can count on.
use vstd::prelude::*;

use crate::fuiz::common;
use crate::fuiz::config::{answers_are_taken_until_everyone_answered, Fuiz, SlideAction, SlideState};
use crate::game::{
    alarm_index, holders_of, shows_teams, Game, HostScreen, IncomingHostMessage, IncomingMessage,
    IncomingPlayerMessage, IncomingUnassignedMessage, LeaderboardMessage, MetainfoMessage, News, Options, Profanity,
    State, SummaryMessage, SyncMessage, UpdateMessage,
};
use crate::leaderboard::{earned, entries_have_scores, places_go_by_points, scorers, HostSummary, ScoreMessage};
use crate::names::{joined, title_case, trimmed, what_stands_against_a_name, NameStyle, Names};
use crate::session::{Audience, Effect, Tunnels};
use crate::settings::{Invalid, Settings};
use crate::teams::{joined_teams, names_of_teams_are_fit, teams_named};
use crate::time::Timestamp;
use crate::watcher::{participants_have_a_part, the_present_have_not_left, Id, PlayerValue, Value, ValueKind};
use crate::{AlarmMessage, TruncatedVec};

verus! {

// ---- options ----

/// Names are made of two or three words, and teams aim at one to five players; anything else is out of
/// range.
pub proof fn options_keep_the_limits(options: Options)
    ensures
        options.problem() is None <==> {
            &&& options.random_names matches Some(NameStyle::Roman(count)) ==> count == 2 || count == 3
            &&& options.random_names matches Some(NameStyle::Petname(count)) ==> count == 2 || count == 3
            &&& options.teams matches Some(teams) ==> 1 <= teams.size && teams.size <= 5
        },
        options.problem() is Some ==> options.problem() == Some(Invalid::Range),
{
}

/// Everyone says only what is theirs to say.
pub proof fn everyone_says_what_is_theirs(message: IncomingMessage, kind: ValueKind)
    ensures
        message is Newcomer ==> !message.spec_follows(kind),
        message is Host ==> (message.spec_follows(kind) <==> kind == ValueKind::Host),
        message is Unassigned ==> (message.spec_follows(kind) <==> kind == ValueKind::Unassigned),
        message is Player ==> (message.spec_follows(kind) <==> kind == ValueKind::Player),
{
}

/// A slide knows of the game what it is: who takes part, which teams there are, the time, its number and how
/// many slides there are.
pub proof fn slides_see_the_game(game: Game, tunnels: Tunnels, now: Timestamp, index: usize)
    ensures
        *game.spec_stage(tunnels, now, index).watchers == game.watchers,
        game.spec_stage(tunnels, now, index).tunnels@ == tunnels@,
        game.spec_stage(tunnels, now, index).now == now,
        game.spec_stage(tunnels, now, index).index == index,
        game.spec_stage(tunnels, now, index).count == game.fuiz_config.slides@.len(),
        game.team_manager matches Some(teams) ==> game.spec_stage(tunnels, now, index).team_manager == Some(&teams),
        game.team_manager is None ==> game.spec_stage(tunnels, now, index).team_manager is None,
{
    assert(game.fuiz_config.slides@.len() == game.fuiz_config.slides.len());
}

/// The host looks at the lobby until the first slide, then at slides and standings by their numbers, and at
/// the summary in the end.
pub proof fn the_host_looks_at_the_screen(game: Game)
    ensures
        game.screen() == HostScreen::Lobby <==> game.state is WaitingScreen || game.state is TeamDisplay,
        game.screen() == HostScreen::Summary <==> game.state is Done,
        game.screen() is Leaderboard <==> game.state is Leaderboard,
        game.state matches State::Leaderboard(index) ==> game.screen() == (HostScreen::Leaderboard { index }),
        game.screen() is Slide <==> game.state is Slide,
{
}

// ---- points ----

/// Players of a team have the points and the place of the team, all others their own; without an entry there
/// are no points.
pub proof fn teams_share_their_points(game: Game, id: Id, score: Option<ScoreMessage>)
    requires
        game.wf(),
        game.is_score(id, score),
    ensures
        ({
            let holder = if game.team_manager is Some && game.team_manager->0.player_teams().contains_key(id) {
                game.team_manager->0.player_teams()[id]
            } else {
                id
            };
            &&& game.spec_leaderboard_id(id) == holder
            &&& score is Some <==> game.leaderboard.totals().contains_key(holder)
            &&& score is Some ==> (score->0).points == game.leaderboard.totals()[holder]
            &&& score is Some ==> game.leaderboard.standings()[(score->0).position as int].0 == holder
            &&& score is Some ==> game.points_of(id) == (score->0).points
            &&& score is None ==> game.points_of(id) == 0
        }),
{
    let holder = game.spec_leaderboard_id(id);
    entries_have_scores(game.leaderboard, holder, score);
    if score is Some {
        places_go_by_points(game.leaderboard, holder, score->0, holder);
    }
}

/// What holds throughout for players is the number of their points, and whether they see the choices.
pub proof fn players_hear_their_points(game: Game, id: Id)
    ensures
        game.options_told(id) == (Effect::Sync {
            to: id,
            message: crate::SyncMessage::Game(
                SyncMessage::Metainfo(
                    MetainfoMessage::Player { score: game.points_of(id), show_answers: game.options.show_answers },
                ),
            ),
        }),
{
}

/// The standings by name are those of the leaderboard, fifty at most, with how many there are; before the
/// last round as well.
pub proof fn standings_are_shown_by_name(game: Game, message: LeaderboardMessage, i: int)
    requires
        game.is_leaderboard_message(message),
    ensures
        message.current.total() == game.leaderboard.standings().len(),
        message.prior.total() == game.leaderboard.prior_standings().len(),
        message.current.kept().len() <= 50,
        message.prior.kept().len() <= 50,
        message.current.kept().len() < 50 ==> message.current.kept().len() == game.leaderboard.standings().len(),
        message.prior.kept().len() < 50 ==> message.prior.kept().len() == game.leaderboard.prior_standings().len(),
        0 <= i < message.current.kept().len() ==> {
            let (holder, points) = game.leaderboard.standings()[i];
            &&& message.current.kept()[i].1 == points
            &&& game.names@.contains_key(holder) ==> message.current.kept()[i].0@ == game.names@[holder]@
        },
        0 <= i < message.prior.kept().len() ==> {
            let (holder, points) = game.leaderboard.prior_standings()[i];
            &&& message.prior.kept()[i].1 == points
            &&& game.names@.contains_key(holder) ==> message.prior.kept()[i].0@ == game.names@[holder]@
        },
{
}

/// In the end players hear what they earned slide by slide, and their place; where standings are left out,
/// only on which slides they earned anything.
pub proof fn players_hear_how_it_went(game: Game, id: Id, message: SummaryMessage, i: int)
    requires
        game.wf(),
        game.is_player_summary(id, message),
        0 <= i < game.leaderboard.history().len(),
    ensures
        ({
            let holder = game.spec_leaderboard_id(id);
            &&& message matches SummaryMessage::Player { score, points, config }
            &&& config.same(&game.fuiz_config)
            &&& points@.len() == game.leaderboard.history().len()
            &&& points@[i] == 0 <==> earned(game.leaderboard.history()[i], holder) == 0
            &&& if game.options.no_leaderboard {
                score is None && points@[i] <= 1
            } else {
                game.is_score(id, score) && points@[i] == earned(game.leaderboard.history()[i], holder)
            }
        }),
{
}

/// In the end the host hears of every slide how many earned points and how many there were, and of everyone
/// by name what they earned; where standings are left out, only on which slides.
pub proof fn the_host_hears_how_it_went(game: Game, message: SummaryMessage, r: int, i: int)
    requires
        game.wf(),
        game.is_host_summary(message),
        0 <= r < game.leaderboard.history().len(),
        0 <= i < game.leaderboard.entrants().len(),
    ensures
        ({
            let holder = game.leaderboard.entrants()[i];
            let round = game.leaderboard.history()[r];
            &&& message matches SummaryMessage::Host { stats, player_count, results, team_mapping, config, options }
            &&& config.same(&game.fuiz_config)
            &&& options == game.options
            &&& player_count == game.leaderboard.entrants().len()
            &&& stats@.len() == game.leaderboard.history().len()
            &&& stats@[r].0 == scorers(round)
            &&& stats@[r].1 == round.len()
            &&& results@.len() == game.leaderboard.entrants().len()
            &&& game.names@.contains_key(holder) ==> results@[i].0@ == game.names@[holder]@
            &&& results@[i].1@.len() == game.leaderboard.history().len()
            &&& results@[i].1@[r] == 0 <==> earned(round, holder) == 0
            &&& game.options.no_leaderboard ==> results@[i].1@[r] <= 1
            &&& !game.options.no_leaderboard ==> results@[i].1@[r] == earned(round, holder)
            &&& game.team_manager is None ==> team_mapping@.len() == 0
        }),
{
    let summary = choose|summary: HostSummary| {
        &&& #[trigger] game.leaderboard.is_host_summary(game.shows_points(), summary)
        &&& message->stats@ == summary.correctness_stats@
        &&& message->player_count == summary.total_players
        &&& crate::game::results_named(game.names, summary.player_scores@, message->results@)
    };
    assert(summary.player_scores[i].0 == game.leaderboard.entrants()[i]);
    assert(summary.correctness_stats[r].1 == game.leaderboard.history()[r].len());
    assert(message->results@[i].1@ == summary.player_scores@[i].1@);
}

// ---- names on the screens ----

/// The players with a name are those present who can be reached and have one, each once.
pub proof fn named_players_can_be_reached(game: Game, open: Set<Id>, id: Id)
    requires
        game.wf(),
    ensures
        game.named_players(open).no_duplicates(),
        game.named_players(open).contains(id) <==> {
            &&& game.watchers.values().contains_key(id)
            &&& game.watchers.values()[id] is Player
            &&& !game.watchers.away().contains(id)
            &&& open.contains(id)
            &&& game.names@.contains_key(id)
        },
{
    the_present_have_not_left(game.watchers, ValueKind::Player, open, id);
    crate::watcher::reachable_no_duplicates(game.watchers, ValueKind::Player, open);
    crate::seqs::lemma_filter_no_duplicates(
        game.watchers.reachable(ValueKind::Player, open),
        |id: Id| game.names@.contains_key(id),
    );
}

/// While players join, the host sees the names of those who can be reached, fifty at most, and how many
/// players there are; once teams are shown, the names of the teams, fifty at most, and how many there are.
pub proof fn the_lobby_shows_names(game: Game, open: Set<Id>, list: TruncatedVec<String>, i: int)
    requires
        game.is_waiting_names(open, list),
    ensures
        list.kept().len() <= 50,
        !(game.state is TeamDisplay) ==> {
            &&& list.total() == game.watchers.present(ValueKind::Player).len()
            &&& list.kept().len() < 50 ==> list.kept().len() == game.named_players(open).len()
            &&& 0 <= i < list.kept().len() ==> list.kept()[i]@ == game.names@[game.named_players(open)[i]]@
        },
        game.state is TeamDisplay && game.team_manager is Some && game.team_manager->0.formed() is Some ==> {
            let teams = game.team_manager->0.formed()->0;
            &&& list.total() == teams.len()
            &&& list.kept().len() < 50 ==> list.kept().len() == teams.len()
            &&& 0 <= i < list.kept().len() ==> list.kept()[i]@ == teams[i].1@
        },
{
}

/// A player is offered everyone with a name who can be reached, each marked where the player chose them, and
/// may choose as many as a team is to have.
pub proof fn players_choose_among_the_named(
    game: Game,
    open: Set<Id>,
    id: Id,
    max: usize,
    available: Seq<(String, bool)>,
    i: int,
)
    requires
        game.offers_teammates(open, id, max, available),
        0 <= i < available.len(),
    ensures
        ({
            let other = game.named_players(open)[i];
            let choices = game.team_manager->0.choices();
            &&& max == game.team_manager->0.target()
            &&& available.len() == game.named_players(open).len()
            &&& available[i].0@ == game.names@[other]@
            &&& available[i].1 <==> choices is Some && choices->0.contains_key(id) && choices->0[id]@.contains(other)
        }),
{
}

// ---- what is told of the teams, the points and the end ----

/// Everyone with a part in the game who can be reached hears the news, and nobody else: players of their own
/// team, score or result, the host of all teams, the standings or all results.
pub proof fn everyone_with_a_part_hears_the_news(game: Game, news: News, open: Set<Id>, effects: Seq<Effect>, i: int)
    requires
        game.wf(),
        game.told_each(news, open, effects),
        0 <= i < effects.len(),
    ensures
        effects.len() == game.watchers.participants(open).len(),
        ({
            let id = game.watchers.participants(open)[i];
            let is_player = game.watchers.values()[id] is Player;
            &&& effects[i] matches Effect::Send { to: Audience::One(to), message: crate::UpdateMessage::Game(message) }
            &&& to == id
            &&& open.contains(id)
            &&& is_player || game.watchers.values()[id] is Host
            &&& news == News::Teams && is_player ==> (message matches UpdateMessage::FindTeam(name) && (
            game.watchers.values()[id] matches Value::Player(PlayerValue::Team { team_name, .. }) ==> name@ == team_name@))
            &&& news == News::Teams && !is_player ==> message is TeamDisplay
            &&& news == News::Points && is_player ==> (message matches UpdateMessage::Score { score } && game.is_score(
                id,
                score,
            ))
            &&& news == News::Points && !is_player ==> (message matches UpdateMessage::Leaderboard { leaderboard }
                && game.is_leaderboard_message(leaderboard))
            &&& news == News::End && is_player ==> (message matches UpdateMessage::Summary(summary) && summary is Player
                && game.is_player_summary(id, summary))
            &&& news == News::End && !is_player ==> (message matches UpdateMessage::Summary(summary) && summary is Host
                && game.is_host_summary(summary))
        }),
{
    let ids = game.watchers.participants(open);
    assert(game.is_told(news, effects[i], ids[i]));
    assert(ids.contains(ids[i]));
    participants_have_a_part(game.watchers, open, ids[i]);
}

// ---- from screen to screen ----

/// After a slide come the standings of that slide, or the next slide where they are left out, and the end
/// where there is none.
pub proof fn slides_are_followed_by_standings(game: Game, after: Game, tunnels: Tunnels, now: Timestamp, effects: Seq<Effect>)
    requires
        game.finished(&after, tunnels, now, effects),
        game.state is Slide,
    ensures
        ({
            let index = game.state->Slide_0.index;
            let count = game.fuiz_config.slides@.len();
            &&& !game.options.no_leaderboard ==> after.state == State::Leaderboard(index) && after.told_each(
                News::Points,
                tunnels@,
                effects,
            )
            &&& game.options.no_leaderboard && index + 1 < count ==> (after.state matches State::Slide(next) && next.index
                == index + 1)
            &&& game.options.no_leaderboard && index + 1 >= count ==> after.state is Done && after.told_each(
                News::End,
                tunnels@,
                effects,
            )
            &&& after.leaderboard == game.leaderboard
            &&& after.watchers == game.watchers
            &&& after.names == game.names
            &&& after.options == game.options
            &&& after.locked == game.locked
            &&& after.team_manager == game.team_manager
            &&& after.fuiz_config == game.fuiz_config
        }),
{
}

/// After the standings comes the next slide, and the end after the last one.
pub proof fn standings_are_followed_by_the_next_slide(
    game: Game,
    after: Game,
    host: Id,
    tunnels: Tunnels,
    now: Timestamp,
    effects: Seq<Effect>,
    index: usize,
)
    requires
        game.watchers.values().contains_key(host),
        game.watchers.values()[host] is Host,
        game.state == State::Leaderboard(index),
        game.took_message(&after, host, IncomingMessage::Host(IncomingHostMessage::Next), tunnels, now, effects),
    ensures
        index + 1 < game.fuiz_config.slides@.len() ==> (after.state matches State::Slide(next) && next.index == index + 1
            && next.state.live() == 0),
        index + 1 >= game.fuiz_config.slides@.len() ==> after.state is Done && after.told_each(
            News::End,
            tunnels@,
            effects,
        ),
        after.leaderboard == game.leaderboard,
        after.watchers == game.watchers,
        after.names == game.names,
{
}

/// A slide begins afresh, with nobody's answer, as the quiz has it.
pub proof fn slides_begin_afresh(
    game: Game,
    after: Game,
    index: int,
    tunnels: Tunnels,
    now: Timestamp,
    effects: Seq<Effect>,
    id: Id,
)
    requires
        game.went_to(&after, index, tunnels, now, effects),
        0 <= index < game.fuiz_config.slides@.len(),
    ensures
        ({
            let config = game.fuiz_config.slides@[index];
            &&& after.state matches State::Slide(current)
            &&& current.index == index
            &&& !current.state.has_answer_of(id)
            &&& current.state.live() == 0
            &&& config is MultipleChoice <==> current.state is MultipleChoice
            &&& config is TypeAnswer <==> current.state is TypeAnswer
            &&& config is Order <==> current.state is Order
            &&& current.state.phase() != common::SlideState::AnswersResults
        }),
{
    let current = after.state->Slide_0;
    let fresh = choose|fresh: SlideState| {
        &&& #[trigger] fresh.is_fresh(game.fuiz_config.slides@[index])
        &&& fresh.played(current.state, game.spec_stage(tunnels, now, index as usize), effects)
    };
    assert(!fresh.has_answer_of(id)) by {
        match fresh {
            SlideState::MultipleChoice(slide) => {
                assert(!slide.book.answers().dom().contains(id));
            },
            SlideState::TypeAnswer(slide) => {
                assert(!slide.book.answers().dom().contains(id));
            },
            SlideState::Order(slide) => {
                assert(!slide.book.answers().dom().contains(id));
            },
        }
    }
}

/// Where the game is over and the host moves on, the connection of everyone who can be reached is closed
/// once, and nothing else is sent.
pub proof fn closing_closes_every_connection(game: Game, after: Game, open: Set<Id>, effects: Seq<Effect>, id: Id)
    requires
        game.wf(),
        game.closed(&after, open, effects),
    ensures
        after.state is Done,
        after.leaderboard == game.leaderboard,
        after.watchers == game.watchers,
        after.names == game.names,
        forall|i: int| 0 <= i < effects.len() ==> (#[trigger] effects[i]) is Close,
        forall|i: int, j: int| 0 <= i < j < effects.len() ==> #[trigger] effects[i] != #[trigger] effects[j],
        game.watchers.values().contains_key(id) && open.contains(id) <==> exists|i: int|
            0 <= i < effects.len() && #[trigger] effects[i] == Effect::Close(id),
{
    let ids = game.watchers.ids().filter(|id: Id| open.contains(id));
    crate::seqs::lemma_filter_no_duplicates(game.watchers.ids(), |id: Id| open.contains(id));
    assert(game.watchers.ids().contains(id) <==> game.watchers.values().contains_key(id));
    assert(ids.contains(id) <==> game.watchers.ids().contains(id) && open.contains(id));
    if ids.contains(id) {
        let i = choose|i: int| 0 <= i < ids.len() && ids[i] == id;
        assert(effects[i] == Effect::Close(id));
    }
    if exists|i: int| 0 <= i < effects.len() && #[trigger] effects[i] == Effect::Close(id) {
        let i = choose|i: int| 0 <= i < effects.len() && #[trigger] effects[i] == Effect::Close(id);
        assert(effects[i] == Effect::Close(ids[i]));
        assert(ids.contains(ids[i]));
    }
}

// ---- names ----

/// A name that is asked for is given where nobody is kept from it: not while the game is locked or names are
/// drawn, and not where something is against the name, which is told.
pub proof fn names_are_given_or_refused(
    game: Game,
    after: Game,
    id: Id,
    asked: String,
    tunnels: Tunnels,
    now: Timestamp,
    effects: Seq<Effect>,
    other: Id,
)
    requires
        game.wf(),
        game.watchers.values().contains_key(id),
        game.watchers.values()[id] is Unassigned,
        game.took_message(
            &after,
            id,
            IncomingMessage::Unassigned(IncomingUnassignedMessage::NameRequest(asked)),
            tunnels,
            now,
            effects,
        ),
    ensures
        game.locked || game.options.random_names is Some ==> after == game && effects.len() == 0,
        ({
            let name = trimmed(asked@);
            let taken = exists|holder: Id|
                holder != id && #[trigger] game.names@.contains_key(holder) && game.names@[holder]@ == name;
            let given = asked@.len() <= 30 && name.len() > 0 && !crate::names::inappropriate(name) && !taken
                && !game.names@.contains_key(id);
            &&& !game.locked && game.options.random_names is None && !given ==> {
                &&& after == game
                &&& effects.len() == 1
                &&& effects[0] matches Effect::Send {
                    to: Audience::One(to),
                    message: crate::UpdateMessage::Game(UpdateMessage::NameError(error)),
                }
                &&& to == id
                &&& error == crate::names::Error::TooLong <==> asked@.len() > 30
                &&& error == crate::names::Error::Empty <==> asked@.len() <= 30 && name.len() == 0
            }
            &&& !game.locked && game.options.random_names is None && given ==> {
                &&& after.names@.contains_key(id)
                &&& after.names@[id]@ == name
                &&& after.watchers.values().contains_key(id)
                &&& after.watchers.values()[id] is Player
                &&& after.state == game.state
                &&& after.leaderboard == game.leaderboard
                &&& other != id ==> (after.names@.contains_key(other) <==> game.names@.contains_key(other))
                &&& other != id && game.names@.contains_key(other) ==> after.names@[other] == game.names@[other]
                &&& other != id && game.watchers.values().contains_key(other) ==> after.watchers.values()[other]
                    == game.watchers.values()[other]
                &&& exists|i: int| 0 <= i < effects.len() && #[trigger] game.is_name_told(effects[i], id, name)
            }
        }),
{
    let name = trimmed(asked@);
    what_stands_against_a_name(game.names, id, asked@.len(), name, crate::names::inappropriate(name));
    if !game.locked && game.options.random_names is None && game.refusal(id, asked@) is None {
        let named = choose|named: Game| #[trigger]
            game.player_named(&named, id, name) && named.introduced(&after, id, name, tunnels, now, effects);
        let joined = choose|joined: Option<String>| #[trigger]
            named.team_joined(&after, id, joined) && after.is_introduction(id, name, joined, tunnels, now, effects);
        let start: int = if joined is Some { 1 } else { 0 };
        assert(after.is_name_told(effects[start], id, name));
        assert(game.is_name_told(effects[start], id, name));
        crate::names::one_participant_gets_the_name(game.names, named.names, id, name, other);
        assert(seq![id][0] == id);
        assert(seq![id].contains(id));
        assert(other != id ==> !seq![id].contains(other));
    }
}

/// Whoever is named hears the name and their points, and then how things stand; and where players join, the
/// host hears of the names last of all.
pub proof fn new_players_are_brought_up_to_date(
    game: Game,
    id: Id,
    name: Seq<char>,
    joined: Option<String>,
    tunnels: Tunnels,
    now: Timestamp,
    effects: Seq<Effect>,
)
    requires
        game.is_introduction(id, name, joined, tunnels, now, effects),
    ensures
        ({
            let start: int = if joined is Some { 1 } else { 0 };
            &&& effects.len() >= start + 3
            &&& joined matches Some(team) ==> effects[0] == (Effect::Send {
                to: Audience::One(id),
                message: crate::UpdateMessage::Game(UpdateMessage::FindTeam(team)),
            })
            &&& effects[start] matches Effect::Send {
                to: Audience::One(to),
                message: crate::UpdateMessage::Game(UpdateMessage::NameAssign(told)),
            }
            &&& to == id
            &&& told@ == name
            &&& effects[start + 1] == (Effect::Sync {
                to: id,
                message: crate::SyncMessage::Game(
                    SyncMessage::Metainfo(
                        MetainfoMessage::Player {
                            score: game.points_of(id),
                            show_answers: game.options.show_answers,
                        },
                    ),
                ),
            })
            &&& effects.last() matches Effect::Sync { to: last, message }
            &&& last == id
            &&& game.is_state_message(id, ValueKind::Player, tunnels, now, message)
        }),
        game.state is WaitingScreen && name.len() > 0 ==> effects.len() >= 4 && effects[effects.len() - 2]
            matches Effect::Send {
            to: Audience::Kind(ValueKind::Host),
            message: crate::UpdateMessage::Game(UpdateMessage::WaitingScreen(list)),
        },
        !(game.state is WaitingScreen) ==> effects.len() == 3 + if joined is Some { 1int } else { 0int },
{
    let start: int = if joined is Some { 1 } else { 0 };
    if game.state is WaitingScreen && name.len() > 0 {
        let arrival = effects.subrange(start + 2, effects.len() - 1);
        assert(game.is_arrival_told(arrival, tunnels@));
        assert(arrival.last() == effects[effects.len() - 2]);
    }
}

/// Someone who joins is without a name at first, and changes nothing else; someone welcomed is asked for a
/// name, unless names are drawn.
pub proof fn those_who_join_have_no_name_at_first(game: Game, added: Game, id: Id, other: Id)
    requires
        game.watcher_added(&added, id),
    ensures
        added.watchers.values().contains_key(id),
        added.watchers.values()[id] is Unassigned,
        added.watchers.ids() == game.watchers.ids().push(id),
        added.watchers.away() == game.watchers.away(),
        added.watchers.capacity() == game.watchers.capacity(),
        other != id ==> (added.watchers.values().contains_key(other) <==> game.watchers.values().contains_key(other)),
        other != id && game.watchers.values().contains_key(other) ==> added.watchers.values()[other]
            == game.watchers.values()[other],
        added.names == game.names,
        added.state == game.state,
        added.leaderboard == game.leaderboard,
        added.locked == game.locked,
        added.options == game.options,
        added.team_manager == game.team_manager,
{
}

/// Someone without a name is asked for one where players choose their names.
pub proof fn newcomers_are_asked_for_a_name(
    game: Game,
    after: Game,
    id: Id,
    tunnels: Tunnels,
    now: Timestamp,
    effects: Seq<Effect>,
)
    requires
        game.welcomed(&after, id, tunnels, now, effects),
        game.options.random_names is None,
    ensures
        after == game,
        effects.len() == 1,
        effects[0] == (Effect::Send {
            to: Audience::One(id),
            message: crate::UpdateMessage::Game(UpdateMessage::NameChoose),
        }),
{
}

// ---- choices ----

/// Those who have the names of a list are found one by one, in its order.
pub proof fn names_lead_to_their_holders(names: Names, list: Seq<String>, name: String, id: Id)
    requires
        names.wf(),
    ensures
        holders_of(names, Seq::<String>::empty()) == Seq::<Id>::empty(),
        names@.contains_key(id) && names@[id]@ == name@ ==> holders_of(names, list.push(name)) == holders_of(
            names,
            list,
        ).push(id),
        (forall|holder: Id| #[trigger] names@.contains_key(holder) ==> names@[holder]@ != name@) ==> holders_of(
            names,
            list.push(name),
        ) == holders_of(names, list),
{
    assert(list.push(name).drop_last() =~= list);
    if names.holders().contains_key(name@) {
        assert(names@.contains_key(names.holders()[name@]));
    }
}

/// Whom a player chooses to be in a team with is noted where players have a say, in place of an earlier
/// choice, and changes nothing else.
pub proof fn choices_of_players_are_noted(
    game: Game,
    after: Game,
    id: Id,
    list: Vec<String>,
    tunnels: Tunnels,
    now: Timestamp,
    effects: Seq<Effect>,
    other: Id,
)
    requires
        game.wf(),
        game.watchers.values().contains_key(id),
        game.watchers.values()[id] is Player,
        game.took_message(
            &after,
            id,
            IncomingMessage::Player(IncomingPlayerMessage::ChooseTeammates(list)),
            tunnels,
            now,
            effects,
        ),
    ensures
        effects.len() == 0,
        after.watchers == game.watchers,
        after.names == game.names,
        after.leaderboard == game.leaderboard,
        after.state == game.state,
        after.locked == game.locked,
        game.team_manager is None ==> after.team_manager is None,
        game.team_manager is Some ==> {
            let before = game.team_manager->0;
            &&& after.team_manager matches Some(teams)
            &&& teams.formed() == before.formed()
            &&& teams.player_teams() == before.player_teams()
            &&& teams.target() == before.target()
            &&& teams.choices() is Some <==> before.choices() is Some
            &&& before.choices() is Some ==> {
                &&& teams.choices()->0.contains_key(id)
                &&& teams.choices()->0[id]@ == holders_of(game.names, list@)
                &&& other != id ==> (teams.choices()->0.contains_key(other) <==> before.choices()->0.contains_key(other))
                &&& other != id && before.choices()->0.contains_key(other) ==> teams.choices()->0[other]
                    == before.choices()->0[other]
            }
        },
{
}

// ---- coming and going ----

/// Someone who leaves is away, and no longer counted among those who answered; leaving twice is leaving once,
/// and strangers cannot leave.
pub proof fn those_who_leave_are_not_counted(game: Game, after: Game, id: Id, other: Id)
    requires
        game.wf(),
        game.left(&after, id),
    ensures
        game.watchers.values().contains_key(id) <==> after.watchers.away().contains(id),
        other != id ==> (after.watchers.away().contains(other) <==> game.watchers.away().contains(other)),
        after.watchers.values() == game.watchers.values(),
        after.watchers.ids() == game.watchers.ids(),
        after.names == game.names,
        after.leaderboard == game.leaderboard,
        after.locked == game.locked,
        after.team_manager == game.team_manager,
        !(game.state is Slide) ==> after.state == game.state,
        game.state matches State::Slide(current) ==> {
            let gone = game.watchers.values().contains_key(id) && !game.watchers.away().contains(id);
            &&& after.state matches State::Slide(then)
            &&& then.index == current.index
            &&& then.state.phase() == current.state.phase()
            &&& then.state.has_answer_of(other) <==> current.state.has_answer_of(other)
            &&& gone && current.state.has_answer_of(id) && current.state.live() > 0 ==> then.state.live() + 1
                == current.state.live()
            &&& !gone || !current.state.has_answer_of(id) ==> then.state.live() == current.state.live()
        },
{
}

/// Someone who returns is not away, and counted again among those who answered; returning undoes leaving.
pub proof fn those_who_return_are_counted_again(game: Game, after: Game, id: Id, other: Id)
    requires
        game.wf(),
        game.returned(&after, id),
    ensures
        !after.watchers.away().contains(id),
        other != id ==> (after.watchers.away().contains(other) <==> game.watchers.away().contains(other)),
        after.watchers.values() == game.watchers.values(),
        after.watchers.ids() == game.watchers.ids(),
        after.names == game.names,
        after.leaderboard == game.leaderboard,
        after.locked == game.locked,
        after.team_manager == game.team_manager,
        !(game.state is Slide) ==> after.state == game.state,
        game.state matches State::Slide(current) ==> {
            let back = game.watchers.away().contains(id);
            &&& after.state matches State::Slide(then)
            &&& then.index == current.index
            &&& then.state.phase() == current.state.phase()
            &&& then.state.has_answer_of(other) <==> current.state.has_answer_of(other)
            &&& back && current.state.has_answer_of(id) ==> then.state.live() == current.state.live() + 1
            &&& !back || !current.state.has_answer_of(id) ==> then.state.live() == current.state.live()
        },
{
}

/// Leaving and returning leaves the counts as they were.
pub proof fn returning_makes_up_for_leaving(game: Game, away: Game, back: Game, id: Id)
    requires
        game.wf(),
        away.wf(),
        game.watchers.values().contains_key(id),
        !game.watchers.away().contains(id),
        game.state matches State::Slide(current) ==> (current.state.has_answer_of(id) ==> current.state.live() > 0),
        game.left(&away, id),
        away.returned(&back, id),
    ensures
        back.watchers.away() == game.watchers.away(),
        back.watchers.values() == game.watchers.values(),
        game.state matches State::Slide(current) ==> (back.state matches State::Slide(then) && then.state.live()
            == current.state.live() && then.state.phase() == current.state.phase()),
        !(game.state is Slide) ==> back.state == game.state,
{
    those_who_leave_are_not_counted(game, away, id, id);
    those_who_return_are_counted_again(away, back, id, id);
    assert(back.watchers.away() =~= game.watchers.away());
}

/// Whoever connects again hears what there is to hear: the host how things stand and whether the game is
/// locked, players their team, name, points and how things stand, those without a name a request for one,
/// and strangers nothing.
pub proof fn those_who_reconnect_are_brought_up_to_date(
    game: Game,
    after: Game,
    id: Id,
    tunnels: Tunnels,
    now: Timestamp,
    effects: Seq<Effect>,
)
    requires
        game.wf(),
        game.session_updated(&after, id, tunnels, now, effects),
    ensures
        !game.watchers.values().contains_key(id) ==> after == game && effects.len() == 0,
        game.watchers.values().contains_key(id) ==> !after.watchers.away().contains(id),
        game.watchers.values().contains_key(id) && game.watchers.values()[id] is Host ==> {
            &&& effects.len() == 2
            &&& effects[0] matches Effect::Sync { to, message }
            &&& to == id
            &&& after.is_state_message(id, ValueKind::Host, tunnels, now, message)
            &&& effects[1] == (Effect::Sync {
                to: id,
                message: crate::SyncMessage::Game(
                    SyncMessage::Metainfo(MetainfoMessage::Host { locked: game.locked }),
                ),
            })
        },
        game.watchers.values().contains_key(id) ==> (game.watchers.values()[id] matches Value::Player(player) ==> {
            let start: int = if player is Team { 1 } else { 0 };
            &&& effects.len() == start + 3
            &&& player matches PlayerValue::Team { team_name, .. } ==> effects[0] == (Effect::Send {
                to: Audience::One(id),
                message: crate::UpdateMessage::Game(UpdateMessage::FindTeam(team_name)),
            })
            &&& effects[start] matches Effect::Send {
                to: Audience::One(to),
                message: crate::UpdateMessage::Game(UpdateMessage::NameAssign(told)),
            }
            &&& to == id
            &&& game.names@.contains_key(id) ==> told@ == game.names@[id]@
            &&& effects[start + 2] matches Effect::Sync { to: last, message }
            &&& last == id
            &&& after.is_state_message(id, ValueKind::Player, tunnels, now, message)
        }),
        game.watchers.values().contains_key(id) && game.watchers.values()[id] is Unassigned && game.locked
            ==> effects.len() == 0,
        game.watchers.values().contains_key(id) && game.watchers.values()[id] is Unassigned && !game.locked
            && game.options.random_names is None ==> effects.len() == 1 && effects[0] == (Effect::Send {
            to: Audience::One(id),
            message: crate::UpdateMessage::Game(UpdateMessage::NameChoose),
        }),
{
    if game.watchers.values().contains_key(id) {
        let back = choose|back: Game| {
            &&& #[trigger] game.returned(&back, id)
            &&& match game.watchers.values()[id] {
                Value::Unassigned => if game.locked {
                    after == back && effects.len() == 0
                } else {
                    back.welcomed(&after, id, tunnels, now, effects)
                },
                value => after == back && back.is_update(id, value, tunnels, now, effects),
            }
        };
        those_who_return_are_counted_again(game, back, id, id);
        if game.watchers.values()[id] is Unassigned && !game.locked && game.options.random_names is Some {
            lemma_welcomed_away(back, after, id, tunnels, now, effects);
        }
    }
}

proof fn lemma_welcomed_away(game: Game, after: Game, id: Id, tunnels: Tunnels, now: Timestamp, effects: Seq<Effect>)
    requires
        game.welcomed(&after, id, tunnels, now, effects),
    ensures
        after.watchers.away() == game.watchers.away(),
{
}

/// The host locks and unlocks the game, and nothing else changes by it.
pub proof fn the_host_locks_the_game(
    game: Game,
    after: Game,
    host: Id,
    lock: bool,
    tunnels: Tunnels,
    now: Timestamp,
    effects: Seq<Effect>,
)
    requires
        game.watchers.values().contains_key(host),
        game.watchers.values()[host] is Host,
        game.took_message(&after, host, IncomingMessage::Host(IncomingHostMessage::Lock(lock)), tunnels, now, effects),
    ensures
        after.locked == lock,
        effects.len() == 0,
        after.watchers == game.watchers,
        after.names == game.names,
        after.leaderboard == game.leaderboard,
        after.state == game.state,
        after.team_manager == game.team_manager,
        after.options == game.options,
        after.fuiz_config == game.fuiz_config,
{
}

// ---- answers ----

/// While fewer have answered than there are players, no answer ends the time in which answers are taken.
pub proof fn answers_do_not_end_the_slide_early(
    game: Game,
    after: Game,
    player: Id,
    message: IncomingPlayerMessage,
    tunnels: Tunnels,
    now: Timestamp,
    effects: Seq<Effect>,
)
    requires
        game.watchers.values().contains_key(player),
        game.watchers.values()[player] is Player,
        !(message is ChooseTeammates),
        game.state is Slide,
        game.took_message(&after, player, IncomingMessage::Player(message), tunnels, now, effects),
    ensures
        after.state is Slide,
        ({
            let current = game.state->Slide_0;
            let then = after.state->Slide_0;
            let players = game.watchers.present(ValueKind::Player).len();
            &&& then.index == current.index
            &&& then.state.phase() != current.state.phase() ==> {
                &&& current.state.phase() == common::SlideState::Answers
                &&& then.state.phase() == common::SlideState::AnswersResults
                &&& players > 0
                &&& then.state.live() >= players
            }
            &&& current.state.phase() == common::SlideState::Answers && then.state != current.state && players > 0
                && then.state.live() >= players ==> then.state.phase() == common::SlideState::AnswersResults
        }),
        after.leaderboard == game.leaderboard,
        after.watchers == game.watchers,
        after.names == game.names,
{
    let said = IncomingMessage::Player(message);
    let (between, action, first) = choose|between: Game, action: SlideAction, first: Seq<Effect>| {
        &&& #[trigger] game.slide_took(&between, player, said, tunnels, now, action, first)
        &&& match action {
            SlideAction::Stay => after == between && effects == first,
            SlideAction::Next => between.finished(&after, tunnels, now, effects),
        }
    };
    let current = game.state->Slide_0;
    let then = between.state->Slide_0;
    answers_are_taken_until_everyone_answered(
        current.state,
        then.state,
        player,
        said,
        game.spec_stage(tunnels, now, current.index),
        game.leaderboard,
        between.leaderboard,
        action,
        first,
    );
}

// ---- how things stand ----

/// Whoever asks hears of the screen that is shown what is theirs to hear.
pub proof fn everyone_sees_their_side_of_the_screen(
    game: Game,
    id: Id,
    kind: ValueKind,
    tunnels: Tunnels,
    now: Timestamp,
    message: crate::SyncMessage,
)
    requires
        game.is_state_message(id, kind, tunnels, now, message),
    ensures
        game.state is WaitingScreen && kind != ValueKind::Player ==> message matches crate::SyncMessage::Game(
            SyncMessage::WaitingScreen(list),
        ),
        game.state is WaitingScreen && kind == ValueKind::Player ==> match message {
            crate::SyncMessage::Game(SyncMessage::ChooseTeammates { max_selection, available }) => {
                game.team_manager is Some && !game.team_manager->0.random()
            },
            crate::SyncMessage::Game(SyncMessage::WaitingScreen(list)) => {
                game.team_manager is None || game.team_manager->0.random()
            },
            _ => false,
        },
        game.state is TeamDisplay && kind == ValueKind::Player ==> (message matches crate::SyncMessage::Game(
            SyncMessage::FindTeam(name),
        ) && (game.watchers.values().contains_key(id) ==> (game.watchers.values()[id] matches Value::Player(
            PlayerValue::Team { team_name, .. },
        ) ==> name@ == team_name@))),
        game.state is TeamDisplay && kind != ValueKind::Player ==> message matches crate::SyncMessage::Game(
            SyncMessage::TeamDisplay(list),
        ),
        game.state matches State::Leaderboard(slide) ==> match message {
            crate::SyncMessage::Game(SyncMessage::Score { index, count, score }) => {
                kind == ValueKind::Player && index == slide && count == game.fuiz_config.slides@.len() && game.is_score(
                    id,
                    score,
                )
            },
            crate::SyncMessage::Game(SyncMessage::Leaderboard { index, count, leaderboard }) => {
                kind != ValueKind::Player && index == slide && count == game.fuiz_config.slides@.len()
                    && game.is_leaderboard_message(leaderboard)
            },
            _ => false,
        },
        game.state is Slide ==> !(message is Game),
        game.state is Done ==> match message {
            crate::SyncMessage::Game(SyncMessage::Summary(SummaryMessage::Player { score, points, config })) => {
                kind == ValueKind::Player
            },
            crate::SyncMessage::Game(
                SyncMessage::Summary(
                    SummaryMessage::Host { stats, player_count, results, team_mapping, config, options },
                ),
            ) => kind == ValueKind::Host,
            crate::SyncMessage::Game(SyncMessage::NotAllowed) => kind == ValueKind::Unassigned,
            _ => false,
        },
{
}

// ---- more of names, teams and screens ----

/// Whoever is let into a locked game hears nothing and stays without a name; else they are asked for a name
/// where players choose them.
pub proof fn newcomers_are_let_in(
    game: Game,
    after: Game,
    id: Id,
    tunnels: Tunnels,
    now: Timestamp,
    effects: Seq<Effect>,
)
    requires
        game.let_in(&after, id, tunnels, now, effects),
        game.locked || game.options.random_names is None,
    ensures
        after.watchers.values() == game.watchers.values().insert(id, Value::Unassigned),
        after.watchers.ids() == game.watchers.ids().push(id),
        after.names == game.names,
        after.state == game.state,
        after.leaderboard == game.leaderboard,
        game.locked ==> effects.len() == 0,
        !game.locked ==> effects.len() == 1 && effects[0] == (Effect::Send {
            to: Audience::One(id),
            message: crate::UpdateMessage::Game(UpdateMessage::NameChoose),
        }),
{
}

/// Where names are drawn, a newcomer gets one of the style asked for, without blanks around it, or nothing
/// happens at all.
pub proof fn drawn_names_are_given(
    game: Game,
    after: Game,
    id: Id,
    style: NameStyle,
    tunnels: Tunnels,
    now: Timestamp,
    effects: Seq<Effect>,
)
    requires
        game.wf(),
        game.watchers.values().contains_key(id),
        game.options.random_names == Some(style),
        game.welcomed(&after, id, tunnels, now, effects),
    ensures
        after.state == game.state,
        after.leaderboard == game.leaderboard,
        after == game && effects.len() == 0 || exists|words: Seq<&'static str>| {
            &&& #[trigger] style.makes(words)
            &&& after.names@.contains_key(id)
            &&& after.names@[id]@ == trimmed(title_case(joined(words)))
            &&& after.watchers.values()[id] is Player
            &&& !game.names@.contains_key(id)
        },
{
    if !(after == game && effects.len() == 0) {
        let words = choose|words: Seq<&'static str>| {
            &&& #[trigger] style.makes(words)
            &&& game.refusal(id, title_case(joined(words))) is None
            &&& game.name_taken(&after, id, title_case(joined(words)), tunnels, now, effects)
        };
        let name = trimmed(title_case(joined(words)));
        let named = choose|named: Game| #[trigger]
            game.player_named(&named, id, name) && named.introduced(&after, id, name, tunnels, now, effects);
        let team = choose|team: Option<String>| #[trigger]
            named.team_joined(&after, id, team) && after.is_introduction(id, name, team, tunnels, now, effects);
        assert(named.names@.dom().contains(id));
        assert(style.makes(words));
    }
}

/// Whoever gets a name once teams are formed gets into a team as well, and hears its name.
pub proof fn named_players_get_a_team(game: Game, after: Game, id: Id, team: Option<String>)
    requires
        game.wf(),
        game.watchers.values().contains_key(id),
        game.team_joined(&after, id, team),
    ensures
        game.team_manager is None ==> after == game && team is None,
        game.team_manager is Some && game.team_manager->0.formed() is None ==> team is None
            && after.watchers == game.watchers && after.team_manager == game.team_manager,
        game.team_manager is Some && game.team_manager->0.formed() is Some ==> {
            &&& team is Some
            &&& after.team_manager is Some
            &&& after.team_manager->0.team_of(id) is Some
            &&& game.team_manager->0.team_of(id) is None ==> after.watchers.values()[id] == Value::Player(
                PlayerValue::Team { team_name: team->0, team_id: after.team_manager->0.team_of(id)->0 },
            )
        },
        after.names == game.names,
        after.state == game.state,
        after.leaderboard == game.leaderboard,
{
    assert(seq![id][0] == id);
    assert(seq![id].contains(id));
}

/// Players who have a say in their teams are all offered the others as someone new comes, and the host hears
/// of the names last.
pub proof fn arrivals_are_told_to_those_who_choose(game: Game, effects: Seq<Effect>, open: Set<Id>, i: int)
    requires
        game.is_arrival_told(effects, open),
    ensures
        ({
            let players = game.watchers.reachable(ValueKind::Player, open);
            let choose_teams = game.team_manager is Some && !game.team_manager->0.random();
            &&& choose_teams ==> effects.len() == players.len() + 1
            &&& !choose_teams ==> effects.len() == 1
            &&& choose_teams && 0 <= i < players.len() ==> {
                &&& effects[i] matches Effect::Send {
                    to: Audience::One(to),
                    message: crate::UpdateMessage::Game(UpdateMessage::ChooseTeammates { max_selection, available }),
                }
                &&& to == players[i]
                &&& game.offers_teammates(open, to, max_selection, available@)
            }
            &&& effects.last() matches Effect::Send {
                to: Audience::Kind(ValueKind::Host),
                message: crate::UpdateMessage::Game(UpdateMessage::WaitingScreen(list)),
            }
            &&& game.is_waiting_names(open, list)
        }),
{
    let players = game.watchers.reachable(ValueKind::Player, open);
    if game.team_manager is Some && !game.team_manager->0.random() && 0 <= i < players.len() {
        assert(game.is_offer_told(effects[i], players[i], open));
    }
}

/// The game starts with its first slide, or with the teams where there are any; without slides it ends.
pub proof fn games_start_with_teams_or_the_first_slide(
    game: Game,
    after: Game,
    host: Id,
    tunnels: Tunnels,
    now: Timestamp,
    effects: Seq<Effect>,
)
    requires
        game.watchers.values().contains_key(host),
        game.watchers.values()[host] is Host,
        game.state is WaitingScreen || game.state is TeamDisplay,
        game.took_message(&after, host, IncomingMessage::Host(IncomingHostMessage::Next), tunnels, now, effects),
    ensures
        game.fuiz_config.slides@.len() == 0 ==> after.state is Done && after.told_each(News::End, tunnels@, effects),
        game.fuiz_config.slides@.len() > 0 && (game.team_manager is None || game.state is TeamDisplay) ==> (after.state
            matches State::Slide(first) && first.index == 0),
        game.fuiz_config.slides@.len() > 0 && game.team_manager is Some && game.state is WaitingScreen ==> {
            ||| after.state is TeamDisplay && after.team_manager is Some && after.team_manager->0.formed() is Some
                && after.told_each(News::Teams, tunnels@, effects)
            ||| after.state is WaitingScreen && effects.len() == 0
        },
        after.leaderboard == game.leaderboard,
        after.options == game.options,
        after.locked == game.locked,
        after.fuiz_config == game.fuiz_config,
{
}

/// Slides come one after the other: asking for one by its number does nothing.
pub proof fn slides_are_not_asked_for_by_number(
    game: Game,
    after: Game,
    host: Id,
    index: usize,
    tunnels: Tunnels,
    now: Timestamp,
    effects: Seq<Effect>,
)
    requires
        game.watchers.values().contains_key(host),
        game.watchers.values()[host] is Host,
        game.took_message(&after, host, IncomingMessage::Host(IncomingHostMessage::Index(index)), tunnels, now, effects),
    ensures
        after == game,
        effects.len() == 0,
{
    if game.state is Slide {
        let said = IncomingMessage::Host(IncomingHostMessage::Index(index));
        let (between, action, first) = choose|between: Game, action: SlideAction, first: Seq<Effect>| {
            &&& #[trigger] game.slide_took(&between, host, said, tunnels, now, action, first)
            &&& match action {
                SlideAction::Stay => after == between && effects == first,
                SlideAction::Next => between.finished(&after, tunnels, now, effects),
            }
        };
    }
}

/// An alarm concerns the slide whose number it holds.
pub proof fn alarms_hold_the_number_of_their_slide(alarm: AlarmMessage)
    ensures
        alarm matches AlarmMessage::MultipleChoice(alarm) ==> alarm_index(AlarmMessage::MultipleChoice(alarm))
            == alarm.index,
        alarm matches AlarmMessage::TypeAnswer(alarm) ==> alarm_index(AlarmMessage::TypeAnswer(alarm)) == alarm.index,
        alarm matches AlarmMessage::Order(alarm) ==> alarm_index(AlarmMessage::Order(alarm)) == alarm.index,
{
}

/// An alarm for the slide that is shown reaches it, changes nothing else, and gives no points.
pub proof fn alarms_reach_their_slide(
    game: Game,
    after: Game,
    alarm: AlarmMessage,
    tunnels: Tunnels,
    now: Timestamp,
    effects: Seq<Effect>,
)
    requires
        game.state is Slide,
        game.state->Slide_0.index == alarm_index(alarm),
        game.took_alarm(&after, alarm, tunnels, now, effects),
    ensures
        after.state is Slide,
        after.state->Slide_0.index == game.state->Slide_0.index,
        game.state->Slide_0.state.took_alarm(
            after.state->Slide_0.state,
            alarm,
            game.spec_stage(tunnels, now, game.state->Slide_0.index),
            effects,
        ),
        after.leaderboard == game.leaderboard,
        after.watchers == game.watchers,
        after.names == game.names,
        after.team_manager == game.team_manager,
        after.locked == game.locked,
{
}

/// Teams are shown by their names in order, fifty at most, and counted.
pub proof fn teams_are_shown_by_name(formed: Option<Seq<(Id, String)>>, list: TruncatedVec<String>, i: int)
    requires
        shows_teams(formed, list),
    ensures
        formed is None ==> list.total() == 0 && list.kept().len() == 0,
        formed matches Some(teams) ==> {
            &&& list.total() == teams.len()
            &&& teams.len() <= 50 ==> list.kept().len() == teams.len()
            &&& teams.len() > 50 ==> list.kept().len() == 50
            &&& 0 <= i < list.kept().len() ==> list.kept()[i]@ == teams[i].1@
        },
{
}

// ---- what calls give ----

/// A new game waits for players under the eyes of its host, who is alone in it: nobody has a name or points,
/// as many can join as the settings say, and teams are made as the options say.
pub proof fn new_games_wait_for_players(fuiz: Fuiz, options: Options, host: Id, settings: Settings, game: Game, id: Id)
    requires
        call_ensures(Game::new, (fuiz, options, host, &settings), game),
    ensures
        game.fuiz_config == fuiz,
        game.options == options,
        game.state is WaitingScreen,
        !game.locked,
        game.watchers.values().contains_key(id) <==> id == host,
        game.watchers.values()[host] is Host,
        !game.watchers.away().contains(id),
        !game.names@.contains_key(id),
        game.leaderboard.history().len() == 0,
        game.points_of(id) == 0,
        game.watchers.capacity() == settings.fuiz.max_player_count,
        game.team_manager is Some <==> options.teams is Some,
        options.teams matches Some(teams) ==> {
            &&& game.team_manager->0.target() == teams.size
            &&& game.team_manager->0.random() == teams.assign_random
            &&& game.team_manager->0.formed() is None
            &&& options.random_names matches Some(style) ==> game.team_manager->0.style() == style
        },
{
}

/// Points and place are those of whoever holds them, and nobody without an entry has any.
pub proof fn scores_are_those_of_the_holder(game: Game, id: Id, score: Option<ScoreMessage>, holder: Id)
    requires
        game.wf(),
        call_ensures(Game::score, (&game, id), score),
        call_ensures(Game::leaderboard_id, (&game, id), holder),
    ensures
        game.team_manager is Some && game.team_manager->0.player_teams().contains_key(id) ==> holder
            == game.team_manager->0.player_teams()[id],
        !(game.team_manager is Some && game.team_manager->0.player_teams().contains_key(id)) ==> holder == id,
        score is Some <==> game.leaderboard.totals().contains_key(holder),
        score matches Some(score) ==> score.points == game.leaderboard.totals()[holder],
{
    teams_share_their_points(game, id, score);
}

/// A message is heard from those whose message it is to send.
pub proof fn senders_are_heard_on_what_is_theirs(message: IncomingMessage, kind: ValueKind, follows: bool)
    requires
        call_ensures(IncomingMessage::follows, (&message, kind), follows),
    ensures
        follows <==> {
            ||| message is Host && kind == ValueKind::Host
            ||| message is Unassigned && kind == ValueKind::Unassigned
            ||| message is Player && kind == ValueKind::Player
        },
{
}

/// The names of teams have one to thirty characters and are never inappropriate.
pub proof fn team_names_are_decent(
    game: Game,
    after: Game,
    tunnels: Tunnels,
    now: Timestamp,
    effects: Seq<Effect>,
    i: int,
)
    requires
        game.wf(),
        after.wf(),
        game.fuiz_config.slides@.len() > 0,
        game.team_manager is Some,
        game.team_manager->0.formed() is None,
        game.state is WaitingScreen,
        game.started(&after, tunnels, now, effects),
        after.state is TeamDisplay,
        0 <= i < after.team_manager->0.formed()->0.len(),
    ensures
        1 <= after.team_manager->0.formed()->0[i].1@.len() <= 30,
        !crate::names::inappropriate(after.team_manager->0.formed()->0[i].1@),
        forall|id: Id| #[trigger]
            game.names@.contains_key(id) ==> after.names@.contains_key(id) && after.names@[id] == game.names@[id],
{
    let before = game.team_manager->0;
    let formed = after.team_manager->0;
    let players = game.watchers.reachable(ValueKind::Player, tunnels@);
    assert(before.finalized(
        formed,
        game.watchers,
        after.watchers,
        game.names,
        after.names,
        tunnels@,
        Profanity::Censor,
        true,
    ));
    let (groups, teams) = choose|groups: Seq<Seq<Id>>, teams: Seq<(Id, String, Vec<Id>)>| {
        &&& #[trigger] before.formed_as(&formed, players, groups, teams)
        &&& teams_named(before.style(), game.names, after.names, teams, Profanity::Censor)
        &&& after.watchers.values() == joined_teams(game.watchers.values(), teams)
    };
    names_of_teams_are_fit(before.style(), game.names, after.names, teams, Profanity::Censor, i);
    assert(formed.formed()->0[i] == (teams[i].0, teams[i].1));
}

} // verus!
