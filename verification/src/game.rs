//! The game: who takes part, what is shown, and what follows from what anyone does.
use vstd::prelude::*;

use crate::formation::chose;
use crate::fuiz::common::SlideState as Phase;
use crate::fuiz::config::{CurrentSlide, Fuiz, SlideAction, SlideState};
use crate::leaderboard::{HostSummary, Leaderboard, ScoreMessage, SHOWN_SCORES};
use crate::names::{self, joined, name_error, title_case, trimmed, NameStyle, Names};
use crate::seqs::lemma_filter_take;
use crate::session::{Audience, Effect, Stage, Tunnels};
use crate::settings::{verdict, Invalid, Settings};
use crate::teams::{TeamManager, SHOWN_TEAMS};
use crate::texts::texts;
use crate::time::Timestamp;
use crate::watcher::{self, Id, PlayerValue, Value, ValueKind, Watchers};
use crate::{AlarmMessage, TruncatedVec};

verus! {

/// Whether inappropriate names are refused.
#[derive(Copy, Clone, Debug, PartialEq, Eq, Structural)]
pub enum Profanity {
    /// They are.
    Censor,
    /// They are not.
    Allow,
}

/// Where the game is.
#[derive(Debug)]
pub enum State {
    /// Players join.
    WaitingScreen,
    /// The teams are shown.
    TeamDisplay,
    /// A slide is shown.
    Slide(Box<CurrentSlide>),
    /// The standings after a slide are shown.
    Leaderboard(usize),
    /// The game is over.
    Done,
}

/// How teams are made.
#[derive(Copy, Clone, Debug, PartialEq, Eq, Structural)]
pub struct TeamOptions {
    /// The number of players aimed at for each team.
    pub size: usize,
    /// Whether players have no say.
    pub assign_random: bool,
}

/// How the game is played.
#[derive(Copy, Clone, Debug, PartialEq, Eq, Structural)]
pub struct Options {
    /// How names are made up, where players do not choose them.
    pub random_names: Option<NameStyle>,
    /// Whether players see the choices on their own screens.
    pub show_answers: bool,
    /// Whether standings are left out.
    pub no_leaderboard: bool,
    /// How teams are made, where there are any.
    pub teams: Option<TeamOptions>,
}

impl Default for Options {
    fn default() -> (options: Self)
        ensures
            options == (Options { random_names: None, show_answers: false, no_leaderboard: false, teams: None }),
    {
        Options { random_names: None, show_answers: false, no_leaderboard: false, teams: None }
    }
}

impl TeamOptions {
    /// What is wrong with them: teams aim at one to five players.
    pub open spec fn problem(self) -> Option<Invalid> {
        if 1 <= self.size <= 5 {
            None
        } else {
            Some(Invalid::Range)
        }
    }

    /// Tells what is wrong, if anything.
    pub fn validate_with(&self, _settings: &Settings) -> (result: Result<(), Invalid>)
        ensures
            result == verdict(self.problem()),
    {
        if 1 <= self.size && self.size <= 5 {
            Ok(())
        } else {
            Err(Invalid::Range)
        }
    }
}

impl Options {
    /// What is wrong with them: names have two or three words, and teams aim at one to five players.
    pub open spec fn problem(self) -> Option<Invalid> {
        if self.random_names is Some && !self.random_names->0.is_valid() {
            Some(Invalid::Range)
        } else if self.teams is Some {
            self.teams->0.problem()
        } else {
            None
        }
    }

    /// Tells what is wrong, if anything.
    pub fn validate_with(&self, settings: &Settings) -> (result: Result<(), Invalid>)
        ensures
            result == verdict(self.problem()),
    {
        if let Some(style) = self.random_names {
            if !style.validate() {
                return Err(Invalid::Range);
            }
        }
        match self.teams {
            Some(teams) => teams.validate_with(settings),
            None => Ok(()),
        }
    }
}

/// A message to the game.
#[derive(Debug)]
pub enum IncomingMessage {
    /// From someone who does not take part yet.
    Newcomer(IncomingGhostMessage),
    /// From the host.
    Host(IncomingHostMessage),
    /// From someone without a name.
    Unassigned(IncomingUnassignedMessage),
    /// From a player.
    Player(IncomingPlayerMessage),
}

impl IncomingMessage {
    /// Whether such a participant sends such messages.
    pub open spec fn spec_follows(&self, sender_kind: ValueKind) -> bool {
        match self {
            IncomingMessage::Newcomer(_) => false,
            IncomingMessage::Host(_) => sender_kind == ValueKind::Host,
            IncomingMessage::Unassigned(_) => sender_kind == ValueKind::Unassigned,
            IncomingMessage::Player(_) => sender_kind == ValueKind::Player,
        }
    }

    /// Whether such a participant sends such messages.
    pub fn follows(&self, sender_kind: ValueKind) -> (follows: bool)
        ensures
            follows == self.spec_follows(sender_kind),
    {
        match self {
            IncomingMessage::Newcomer(_) => false,
            IncomingMessage::Host(_) => sender_kind == ValueKind::Host,
            IncomingMessage::Unassigned(_) => sender_kind == ValueKind::Unassigned,
            IncomingMessage::Player(_) => sender_kind == ValueKind::Player,
        }
    }
}

/// A message from a player.
#[derive(Debug)]
pub enum IncomingPlayerMessage {
    /// One choice.
    IndexAnswer(usize),
    /// Several choices.
    IndexArrayAnswer(Vec<usize>),
    /// A typed answer.
    StringAnswer(String),
    /// An order.
    StringArrayAnswer(Vec<String>),
    /// The players to be in a team with, by name.
    ChooseTeammates(Vec<String>),
}

/// A message from someone without a name.
#[derive(Debug)]
pub enum IncomingUnassignedMessage {
    /// Asks for a name.
    NameRequest(String),
}

/// A message from someone who does not take part yet.
#[derive(Debug)]
pub enum IncomingGhostMessage {
    /// Asks for an identifier.
    DemandId,
    /// Claims an identifier.
    ClaimId(Id),
}

/// Where a slide is.
#[derive(Copy, Clone, Debug, PartialEq, Eq, Structural)]
pub enum SlidePosition {
    /// A multiple choice slide.
    MultipleChoice {
        /// The number of the slide.
        index: usize,
        /// Where it is on its way.
        phase: Phase,
    },
    /// A slide with typed answers.
    TypeAnswer {
        /// The number of the slide.
        index: usize,
        /// Where it is on its way.
        phase: Phase,
    },
    /// A slide about an order.
    Order {
        /// The number of the slide.
        index: usize,
        /// Where it is on its way.
        phase: Phase,
    },
}

/// What the host looks at.
#[derive(Copy, Clone, Debug, PartialEq, Eq, Structural)]
pub enum HostScreen {
    /// Those who wait, or the teams.
    Lobby,
    /// A slide.
    Slide(SlidePosition),
    /// The standings after a slide.
    Leaderboard {
        /// The number of the slide.
        index: usize,
    },
    /// How it went.
    Summary,
}

/// A message from the host.
#[derive(Copy, Clone, Debug, PartialEq, Eq, Structural)]
pub enum IncomingHostMessage {
    /// Moves on.
    Next,
    /// Moves on from a screen: does nothing where the game has left it.
    NextFrom(HostScreen),
    /// Goes to a slide.
    Index(usize),
    /// Locks or unlocks the game.
    Lock(bool),
}

/// What is new in the game.
#[allow(inconsistent_fields)]
#[derive(Debug)]
pub enum UpdateMessage {
    /// The identifier is this.
    IdAssign(Id),
    /// The players are these.
    WaitingScreen(TruncatedVec<String>),
    /// The teams are these.
    TeamDisplay(TruncatedVec<String>),
    /// A name is to be chosen.
    NameChoose,
    /// The name is this.
    NameAssign(String),
    /// The name is refused.
    NameError(names::Error),
    /// The standings are these.
    Leaderboard {
        /// The standings.
        leaderboard: LeaderboardMessage,
    },
    /// The points are these.
    Score {
        /// The points.
        score: Option<ScoreMessage>,
    },
    /// The game is over.
    Summary(SummaryMessage),
    /// The team is this.
    FindTeam(String),
    /// Teammates are to be chosen.
    ChooseTeammates {
        /// The most that can be chosen.
        max_selection: usize,
        /// The players, each with whether they are chosen.
        available: Vec<(String, bool)>,
    },
}

/// How things stand in the game.
#[allow(inconsistent_fields)]
#[derive(Debug)]
pub enum SyncMessage {
    /// The players are these.
    WaitingScreen(TruncatedVec<String>),
    /// The teams are these.
    TeamDisplay(TruncatedVec<String>),
    /// The standings are these.
    Leaderboard {
        /// The number of the slide.
        index: usize,
        /// The number of slides.
        count: usize,
        /// The standings.
        leaderboard: LeaderboardMessage,
    },
    /// The points are these.
    Score {
        /// The number of the slide.
        index: usize,
        /// The number of slides.
        count: usize,
        /// The points.
        score: Option<ScoreMessage>,
    },
    /// What holds throughout.
    Metainfo(MetainfoMessage),
    /// The game is over.
    Summary(SummaryMessage),
    /// There is nothing to see.
    NotAllowed,
    /// The team is this.
    FindTeam(String),
    /// Teammates are to be chosen.
    ChooseTeammates {
        /// The most that can be chosen.
        max_selection: usize,
        /// The players, each with whether they are chosen.
        available: Vec<(String, bool)>,
    },
}

/// What is told at the end.
#[allow(inconsistent_fields)]
#[derive(Debug)]
pub enum SummaryMessage {
    /// To a player.
    Player {
        /// The points and the place.
        score: Option<ScoreMessage>,
        /// The points of each slide.
        points: Vec<u64>,
        /// The quiz.
        config: Fuiz,
    },
    /// To the host.
    Host {
        /// Of each slide how many earned points, and how many took part.
        stats: Vec<(usize, usize)>,
        /// How many took part.
        player_count: usize,
        /// The points of each, slide by slide.
        results: Vec<(String, Vec<u64>)>,
        /// The players of each team.
        team_mapping: Vec<(String, Vec<String>)>,
        /// The quiz.
        config: Fuiz,
        /// How it was played.
        options: Options,
    },
}

/// What holds throughout.
#[derive(Copy, Clone, Debug, PartialEq, Eq, Structural)]
pub enum MetainfoMessage {
    /// For the host.
    Host {
        /// Whether the game is locked.
        locked: bool,
    },
    /// For a player.
    Player {
        /// The points so far.
        score: u64,
        /// Whether players see the choices on their own screens.
        show_answers: bool,
    },
}

/// The standings after and before a slide.
#[derive(Debug)]
pub struct LeaderboardMessage {
    /// After it.
    pub current: TruncatedVec<(String, u64)>,
    /// Before it.
    pub prior: TruncatedVec<(String, u64)>,
}

/// A game.
pub struct Game {
    /// The quiz.
    pub fuiz_config: Fuiz,
    /// Everyone who takes part.
    pub watchers: Watchers,
    /// Their names.
    pub names: Names,
    /// Their points.
    pub leaderboard: Leaderboard,
    /// Where the game is.
    pub state: State,
    /// How it is played.
    pub options: Options,
    /// Whether nobody gets a name any more.
    pub locked: bool,
    /// The teams, where there are any.
    pub team_manager: Option<TeamManager<NameStyle>>,
}

/// As many as are shown of so many.
pub open spec fn shown_of(count: nat, limit: usize) -> nat {
    if count < limit {
        count
    } else {
        limit as nat
    }
}

/// A message to one participant.
pub open spec fn to_one(id: Id, message: UpdateMessage) -> Effect {
    Effect::Send { to: Audience::One(id), message: crate::UpdateMessage::Game(message) }
}

/// How things stand, for one participant.
pub open spec fn synced(id: Id, message: SyncMessage) -> Effect {
    Effect::Sync { to: id, message: crate::SyncMessage::Game(message) }
}

/// Whether the list shows the names of the teams.
pub open spec fn shows_teams(formed: Option<Seq<(Id, String)>>, list: TruncatedVec<String>) -> bool {
    match formed {
        Some(teams) => {
            &&& list.total() == teams.len()
            &&& list.kept().len() == shown_of(teams.len(), SHOWN_TEAMS)
            &&& forall|i: int| 0 <= i < list.kept().len() ==> (#[trigger] list.kept()[i])@ == teams[i].1@
        },
        None => list.total() == 0 && list.kept().len() == 0,
    }
}

/// Whether the list shows the standings by name.
pub open spec fn shows_standings(names: Names, standings: Seq<(Id, u64)>, list: TruncatedVec<(String, u64)>) -> bool {
    &&& list.total() == standings.len()
    &&& list.kept().len() == shown_of(standings.len(), SHOWN_SCORES)
    &&& forall|i: int|
        0 <= i < list.kept().len() ==> {
            &&& (#[trigger] list.kept()[i]).0@ == names.name_or_unknown(standings[i].0)
            &&& list.kept()[i].1 == standings[i].1
        }
}

/// How many player names are shown at most.
pub const SHOWN_NAMES: usize = 50;

impl Game {
    /// All parts of the game are in order.
    pub open spec fn wf(&self) -> bool {
        &&& self.watchers.wf()
        &&& self.names.wf()
        &&& self.leaderboard.wf()
        &&& self.team_manager is Some ==> self.team_manager->0.wf() && self.team_manager->0.target() > 0
        &&& match self.state {
            State::Slide(current) => current.state.wf() && current.index < usize::MAX,
            State::Leaderboard(index) => index < usize::MAX,
            _ => true,
        }
    }

    /// One more answer can be counted.
    pub open spec fn has_room(&self) -> bool {
        match self.state {
            State::Slide(current) => current.state.live() < usize::MAX,
            _ => true,
        }
    }

    /// Whether the teams and the screen are in order, where participants, names and points are.
    pub fn is_sound(&self) -> (sound: bool)
        requires
            self.watchers.wf(),
            self.names.wf(),
            self.leaderboard.wf(),
        ensures
            sound == self.wf(),
    {
        let teams = match &self.team_manager {
            Some(team_manager) => team_manager.is_sound() && team_manager.target_size() > 0,
            None => true,
        };
        teams && match &self.state {
            State::Slide(current) => current.state.is_sound() && current.index < usize::MAX,
            State::Leaderboard(index) => *index < usize::MAX,
            _ => true,
        }
    }

    /// What the host looks at.
    pub open spec fn screen(&self) -> HostScreen {
        match self.state {
            State::WaitingScreen | State::TeamDisplay => HostScreen::Lobby,
            State::Slide(current) => HostScreen::Slide(
                match current.state {
                    SlideState::MultipleChoice(slide) => SlidePosition::MultipleChoice {
                        index: current.index,
                        phase: slide.core.state,
                    },
                    SlideState::TypeAnswer(slide) => SlidePosition::TypeAnswer {
                        index: current.index,
                        phase: slide.core.state,
                    },
                    SlideState::Order(slide) => SlidePosition::Order { index: current.index, phase: slide.core.state },
                },
            ),
            State::Leaderboard(index) => HostScreen::Leaderboard { index },
            State::Done => HostScreen::Summary,
        }
    }

    /// What the host looks at.
    pub fn host_screen(&self) -> (screen: HostScreen)
        ensures
            screen == self.screen(),
    {
        match &self.state {
            State::WaitingScreen | State::TeamDisplay => HostScreen::Lobby,
            State::Slide(current) => HostScreen::Slide(
                match &current.state {
                    SlideState::MultipleChoice(slide) => SlidePosition::MultipleChoice {
                        index: current.index,
                        phase: slide.core.state,
                    },
                    SlideState::TypeAnswer(slide) => SlidePosition::TypeAnswer {
                        index: current.index,
                        phase: slide.core.state,
                    },
                    SlideState::Order(slide) => SlidePosition::Order { index: current.index, phase: slide.core.state },
                },
            ),
            State::Leaderboard(index) => HostScreen::Leaderboard { index: *index },
            State::Done => HostScreen::Summary,
        }
    }

    /// Whether one more answer can be counted.
    pub fn can_count(&self) -> (room: bool)
        ensures
            room == self.has_room(),
    {
        match &self.state {
            State::Slide(current) => current.state.live_count() < usize::MAX,
            _ => true,
        }
    }

    /// What surrounds a slide.
    pub open spec fn spec_stage(&self, tunnels: Tunnels, now: Timestamp, index: usize) -> Stage {
        Stage {
            watchers: &self.watchers,
            tunnels: &tunnels,
            team_manager: match self.team_manager {
                Some(team_manager) => Some(&team_manager),
                None => None,
            },
            now,
            index,
            count: self.fuiz_config.slides@.len() as usize,
        }
    }

    fn stage<'a>(&'a self, tunnels: &'a Tunnels, now: Timestamp, index: usize) -> (stage: Stage<'a>)
        requires
            self.wf(),
        ensures
            stage == self.spec_stage(*tunnels, now, index),
            stage.wf(),
    {
        Stage {
            watchers: &self.watchers,
            tunnels,
            team_manager: match &self.team_manager {
                Some(team_manager) => Some(team_manager),
                None => None,
            },
            now,
            index,
            count: self.fuiz_config.len(),
        }
    }

    /// A game that nobody but the host takes part in.
    pub fn new(fuiz: Fuiz, options: Options, host_id: Id, settings: &Settings) -> (game: Self)
        requires
            options.teams is Some ==> options.teams->0.size > 0,
        ensures
            game.wf(),
            game.has_room(),
            game.fuiz_config == fuiz,
            game.options == options,
            game.state == State::WaitingScreen,
            !game.locked,
            game.watchers.ids() == seq![host_id],
            game.watchers.values() == Map::<Id, Value>::empty().insert(host_id, Value::Host),
            game.watchers.away() == Set::<Id>::empty(),
            game.watchers.capacity() == settings.fuiz.max_player_count,
            game.names@ == Map::<Id, String>::empty(),
            game.leaderboard.totals() == Map::<Id, u64>::empty(),
            game.leaderboard.history() == Seq::<Seq<(Id, u64)>>::empty(),
            match options.teams {
                Some(teams) => {
                    &&& game.team_manager is Some
                    &&& game.team_manager->0.target() == teams.size
                    &&& game.team_manager->0.random() == teams.assign_random
                    &&& game.team_manager->0.style() == match options.random_names {
                        Some(style) => style,
                        None => NameStyle::Petname(2),
                    }
                    &&& game.team_manager->0.choices() == if teams.assign_random {
                        None
                    } else {
                        Some(Map::<Id, Vec<Id>>::empty())
                    }
                    &&& game.team_manager->0.formed() is None
                    &&& game.team_manager->0.added() == 0
                },
                None => game.team_manager is None,
            },
    {
        Game {
            fuiz_config: fuiz,
            watchers: Watchers::with_host_id(host_id, settings.fuiz.max_player_count),
            names: Names::new(),
            leaderboard: Leaderboard::new(),
            state: State::WaitingScreen,
            options,
            locked: false,
            team_manager: match options.teams {
                Some(teams) => Some(
                    TeamManager::new(
                        teams.size,
                        teams.assign_random,
                        match options.random_names {
                            Some(style) => style,
                            None => NameStyle::default(),
                        },
                    ),
                ),
                None => None,
            },
        }
    }

    /// Goes to a screen.
    pub fn set_state(&mut self, game_state: State)
        ensures
            *final(self) == (Game { state: game_state, ..*old(self) }),
    {
        self.state = game_state;
    }

    // ---- points and names ----

    /// Who gets the points of a player.
    pub open spec fn spec_leaderboard_id(&self, player_id: Id) -> Id {
        match self.team_manager {
            Some(team_manager) => match team_manager.team_of(player_id) {
                Some(team) => team,
                None => player_id,
            },
            None => player_id,
        }
    }

    /// Who gets the points of a player: the player's team, or the player where there is none.
    pub fn leaderboard_id(&self, player_id: Id) -> (id: Id)
        ensures
            id == self.spec_leaderboard_id(player_id),
    {
        match &self.team_manager {
            Some(team_manager) => match team_manager.get_team(player_id) {
                Some(team) => team,
                None => player_id,
            },
            None => player_id,
        }
    }

    /// Whether `score` tells the points and the place of a player.
    pub open spec fn is_score(&self, watcher_id: Id, score: Option<ScoreMessage>) -> bool {
        self.leaderboard.is_score(self.spec_leaderboard_id(watcher_id), score)
    }

    /// The points and the place of a player.
    pub fn score(&self, watcher_id: Id) -> (score: Option<ScoreMessage>)
        requires
            self.wf(),
        ensures
            self.is_score(watcher_id, score),
    {
        self.leaderboard.score(self.leaderboard_id(watcher_id))
    }

    /// The points of a player.
    pub open spec fn points_of(&self, watcher_id: Id) -> u64 {
        let id = self.spec_leaderboard_id(watcher_id);
        if self.leaderboard.totals().contains_key(id) {
            self.leaderboard.totals()[id]
        } else {
            0
        }
    }

    fn points(&self, watcher_id: Id) -> (points: u64)
        requires
            self.wf(),
        ensures
            points == self.points_of(watcher_id),
    {
        match self.score(watcher_id) {
            Some(score) => {
                let ghost id = self.spec_leaderboard_id(watcher_id);
                assert(self.leaderboard.standings()[score.position as int].0 == id);
                score.points
            },
            None => 0,
        }
    }

    /// The players that can be reached and have a name.
    pub open spec fn named_players(&self, open: Set<Id>) -> Seq<Id> {
        self.watchers.reachable(ValueKind::Player, open).filter(|id: Id| self.names@.contains_key(id))
    }

    fn named_players_vec(&self, tunnels: &Tunnels) -> (ids: Vec<Id>)
        requires
            self.wf(),
        ensures
            ids@ == self.named_players(tunnels@),
            forall|i: int| 0 <= i < ids.len() ==> self.names@.contains_key(#[trigger] ids[i]),
    {
        let players = self.watchers.specific_vec(ValueKind::Player, tunnels);
        let ghost pred = |id: Id| self.names@.contains_key(id);
        let mut ids: Vec<Id> = Vec::new();
        let mut i: usize = 0;
        while i < players.len()
            invariant
                i <= players.len(),
                pred == (|id: Id| self.names@.contains_key(id)),
                ids@ == players@.take(i as int).filter(pred),
                forall|j: int| 0 <= j < ids.len() ==> self.names@.contains_key(#[trigger] ids[j]),
            decreases players.len() - i,
        {
            proof {
                lemma_filter_take(players@, pred, i as int);
            }
            if self.names.get_name(&players[i]).is_some() {
                ids.push(players[i]);
            }
            i = i + 1;
        }
        assert(players@.take(i as int) =~= players@);
        ids
    }

    /// Whether the list shows the teams while they are shown, else the players.
    pub open spec fn is_waiting_names(&self, open: Set<Id>, list: TruncatedVec<String>) -> bool {
        if self.team_manager is Some && self.state is TeamDisplay {
            shows_teams(self.team_manager->0.formed(), list)
        } else {
            let ids = self.named_players(open);
            &&& list.total() == self.watchers.present(ValueKind::Player).len()
            &&& list.kept().len() == shown_of(ids.len(), SHOWN_NAMES)
            &&& forall|i: int| 0 <= i < list.kept().len() ==> (#[trigger] list.kept()[i])@ == self.names@[ids[i]]@
        }
    }

    /// The names of the teams, if there are any.
    fn team_names(&self) -> (list: TruncatedVec<String>)
        ensures
            shows_teams(
                match self.team_manager {
                    Some(team_manager) => team_manager.formed(),
                    None => None,
                },
                list,
            ),
    {
        let mut names: Vec<String> = Vec::new();
        let mut total: usize = 0;
        if let Some(team_manager) = &self.team_manager {
            if let Some(list) = team_manager.team_names() {
                total = list.exact_count();
                let shown = list.items();
                let mut i: usize = 0;
                while i < shown.len()
                    invariant
                        i <= shown.len(),
                        names.len() == i,
                        shown@ == list.kept(),
                        forall|j: int| 0 <= j < i ==> (#[trigger] names[j])@ == list.kept()[j]@,
                    decreases shown.len() - i,
                {
                    names.push(shown[i].to_owned());
                    i = i + 1;
                }
            }
        }
        TruncatedVec::new(names.into_iter(), SHOWN_TEAMS, total)
    }

    /// The names of the teams while they are shown, else of the players.
    pub fn waiting_screen_names(&self, tunnels: &Tunnels) -> (list: TruncatedVec<String>)
        requires
            self.wf(),
        ensures
            self.is_waiting_names(tunnels@, list),
    {
        if self.team_manager.is_some() && matches!(self.state, State::TeamDisplay) {
            return self.team_names();
        }
        let ids = self.named_players_vec(tunnels);
        let mut list: Vec<String> = Vec::new();
        let mut i: usize = 0;
        while i < ids.len()
            invariant
                i <= ids.len(),
                list.len() == i,
                forall|j: int| 0 <= j < ids.len() ==> self.names@.contains_key(#[trigger] ids[j]),
                forall|j: int| 0 <= j < i ==> (#[trigger] list[j])@ == self.names@[ids[j]]@,
            decreases ids.len() - i,
        {
            assert(self.names@.contains_key(ids[i as int]));
            list.push(self.names.get_name_or_unknown(&ids[i]).to_owned());
            i = i + 1;
        }
        TruncatedVec::new(list.into_iter(), SHOWN_NAMES, self.watchers.specific_count(ValueKind::Player))
    }

    /// Whether `available` offers a player the others to be in a team with.
    pub open spec fn offers_teammates(&self, open: Set<Id>, watcher_id: Id, max: usize, available: Seq<(String, bool)>) -> bool {
        let ids = self.named_players(open);
        &&& max == self.team_manager->0.target()
        &&& available.len() == ids.len()
        &&& forall|i: int|
            0 <= i < available.len() ==> {
                &&& (#[trigger] available[i]).0@ == self.names@[ids[i]]@
                &&& available[i].1 == chose(self.team_manager->0.choices(), watcher_id, ids[i])
            }
    }

    /// The players a player can choose from, each with whether they are chosen.
    pub fn teammates_offer(&self, watcher_id: Id, team_manager: &TeamManager<NameStyle>, tunnels: &Tunnels) -> (offer: (
        usize,
        Vec<(String, bool)>,
    ))
        requires
            self.wf(),
            self.team_manager == Some(*team_manager),
        ensures
            self.offers_teammates(tunnels@, watcher_id, offer.0, offer.1@),
    {
        let chosen = team_manager.get_preferences(watcher_id);
        let ids = self.named_players_vec(tunnels);
        let mut available: Vec<(String, bool)> = Vec::new();
        let mut i: usize = 0;
        while i < ids.len()
            invariant
                i <= ids.len(),
                self.team_manager == Some(*team_manager),
                available.len() == i,
                match chosen {
                    Some(chosen) => {
                        &&& team_manager.choices() is Some
                        &&& team_manager.choices()->0.contains_key(watcher_id)
                        &&& chosen@ == team_manager.choices()->0[watcher_id]@
                    },
                    None => team_manager.choices() is None || !team_manager.choices()->0.contains_key(watcher_id),
                },
                forall|j: int| 0 <= j < ids.len() ==> self.names@.contains_key(#[trigger] ids[j]),
                forall|j: int|
                    0 <= j < i ==> {
                        &&& (#[trigger] available[j]).0@ == self.names@[ids[j]]@
                        &&& available[j].1 == chose(team_manager.choices(), watcher_id, ids[j])
                    },
            decreases ids.len() - i,
        {
            assert(self.names@.contains_key(ids[i as int]));
            let id = ids[i];
            let mut is_chosen = false;
            if let Some(list) = &chosen {
                let mut j: usize = 0;
                while j < list.len()
                    invariant
                        j <= list.len(),
                        is_chosen == list@.take(j as int).contains(id),
                    decreases list.len() - j,
                {
                    proof {
                        let before = list@.take(j as int);
                        let longer = list@.take(j + 1);
                        assert(longer =~= before.push(list@[j as int]));
                        assert(longer[j as int] == list@[j as int]);
                        if before.contains(id) {
                            let k = choose|k: int| 0 <= k < before.len() && before[k] == id;
                            assert(longer[k] == id);
                        }
                        if longer.contains(id) && list@[j as int] != id {
                            let k = choose|k: int| 0 <= k < longer.len() && longer[k] == id;
                            assert(before[k] == id);
                        }
                    }
                    if list[j] == id {
                        is_chosen = true;
                    }
                    j = j + 1;
                }
                assert(list@.take(j as int) =~= list@);
            }
            available.push((self.names.get_name_or_unknown(&id).to_owned(), is_chosen));
            i = i + 1;
        }
        (team_manager.target_size(), available)
    }

    fn named_standings(&self, list: &TruncatedVec<(Id, u64)>) -> (named: TruncatedVec<(String, u64)>)
        requires
            list.kept().len() <= SHOWN_SCORES,
        ensures
            named.total() == list.total(),
            named.kept().len() == list.kept().len(),
            forall|i: int|
                0 <= i < named.kept().len() ==> {
                    &&& (#[trigger] named.kept()[i]).0@ == self.names.name_or_unknown(list.kept()[i].0)
                    &&& named.kept()[i].1 == list.kept()[i].1
                },
    {
        let items = list.items();
        let mut named: Vec<(String, u64)> = Vec::new();
        let mut i: usize = 0;
        while i < items.len()
            invariant
                i <= items.len(),
                items@ == list.kept(),
                named.len() == i,
                forall|j: int|
                    0 <= j < i ==> {
                        &&& (#[trigger] named[j]).0@ == self.names.name_or_unknown(list.kept()[j].0)
                        &&& named[j].1 == list.kept()[j].1
                    },
            decreases items.len() - i,
        {
            named.push((self.names.get_name_or_unknown(&items[i].0).to_owned(), items[i].1));
            i = i + 1;
        }
        TruncatedVec::new(named.into_iter(), SHOWN_SCORES, list.exact_count())
    }

    /// Whether `message` shows the standings.
    pub open spec fn is_leaderboard_message(&self, message: LeaderboardMessage) -> bool {
        &&& shows_standings(self.names, self.leaderboard.standings(), message.current)
        &&& shows_standings(self.names, self.leaderboard.prior_standings(), message.prior)
    }

    /// The standings by name.
    pub fn leaderboard_message(&self) -> (message: LeaderboardMessage)
        ensures
            self.is_leaderboard_message(message),
    {
        let (current, prior) = self.leaderboard.last_two_scores_descending();
        LeaderboardMessage { current: self.named_standings(&current), prior: self.named_standings(&prior) }
    }

    // ---- the end ----

    /// Whether points are shown as they are.
    pub open spec fn shows_points(&self) -> bool {
        !self.options.no_leaderboard
    }

    /// Whether `message` tells a player how the game went.
    pub open spec fn is_player_summary(&self, id: Id, message: SummaryMessage) -> bool {
        &&& message matches SummaryMessage::Player { score, points, config }
        &&& if self.options.no_leaderboard {
            score is None
        } else {
            self.is_score(id, score)
        }
        &&& points@ == self.leaderboard.summary_of(self.spec_leaderboard_id(id), !self.options.no_leaderboard)
        &&& config.same(&self.fuiz_config)
    }

    /// Whether `message` tells the host how the game went.
    pub open spec fn is_host_summary(&self, message: SummaryMessage) -> bool {
        &&& message matches SummaryMessage::Host { stats, player_count, results, team_mapping, config, options }
        &&& exists|summary: HostSummary| {
            &&& #[trigger] self.leaderboard.is_host_summary(self.shows_points(), summary)
            &&& stats@ == summary.correctness_stats@
            &&& player_count == summary.total_players
            &&& results_named(self.names, summary.player_scores@, results@)
        }
        &&& match self.team_manager {
            Some(team_manager) => team_manager.is_assignments(self.names, team_mapping@),
            None => team_mapping@.len() == 0,
        }
        &&& config.same(&self.fuiz_config)
        &&& options == self.options
    }

    fn player_summary(&self, id: Id) -> (message: SummaryMessage)
        requires
            self.wf(),
        ensures
            self.is_player_summary(id, message),
    {
        SummaryMessage::Player {
            score: if self.options.no_leaderboard {
                None
            } else {
                self.score(id)
            },
            points: self.leaderboard.player_summary(self.leaderboard_id(id), !self.options.no_leaderboard),
            config: self.fuiz_config.clone(),
        }
    }

    fn host_summary(&self) -> (message: SummaryMessage)
        ensures
            self.is_host_summary(message),
    {
        let summary = self.leaderboard.host_summary(!self.options.no_leaderboard);
        let mut results: Vec<(String, Vec<u64>)> = Vec::new();
        let mut i: usize = 0;
        while i < summary.player_scores.len()
            invariant
                i <= summary.player_scores.len(),
                results.len() == i,
                forall|j: int|
                    0 <= j < i ==> {
                        &&& (#[trigger] results[j]).0@ == self.names.name_or_unknown(summary.player_scores@[j].0)
                        &&& results[j].1@ == summary.player_scores@[j].1@
                    },
            decreases summary.player_scores.len() - i,
        {
            let (id, points) = &summary.player_scores[i];
            results.push((self.names.get_name_or_unknown(id).to_owned(), copy_points(points)));
            i = i + 1;
        }
        let mut stats: Vec<(usize, usize)> = Vec::new();
        let mut k: usize = 0;
        while k < summary.correctness_stats.len()
            invariant
                k <= summary.correctness_stats.len(),
                stats@ == summary.correctness_stats@.take(k as int),
            decreases summary.correctness_stats.len() - k,
        {
            stats.push(summary.correctness_stats[k]);
            k = k + 1;
            assert(stats@ =~= summary.correctness_stats@.take(k as int));
        }
        assert(stats@ =~= summary.correctness_stats@);
        let team_mapping = match &self.team_manager {
            Some(team_manager) => team_manager.team_assignments(&self.names),
            None => Vec::new(),
        };
        assert(results_named(self.names, summary.player_scores@, results@));
        assert(self.leaderboard.is_host_summary(self.shows_points(), summary));
        SummaryMessage::Host {
            stats,
            player_count: summary.total_players,
            results,
            team_mapping,
            config: self.fuiz_config.clone(),
            options: self.options,
        }
    }

    // ---- how things stand ----

    /// Whether `message` tells a participant how things stand.
    pub open spec fn is_state_message(
        &self,
        id: Id,
        kind: ValueKind,
        tunnels: Tunnels,
        now: Timestamp,
        message: crate::SyncMessage,
    ) -> bool {
        match self.state {
            State::WaitingScreen => if self.team_manager is Some && !self.team_manager->0.random() && kind
                == ValueKind::Player {
                &&& message matches crate::SyncMessage::Game(SyncMessage::ChooseTeammates { max_selection, available })
                &&& self.offers_teammates(tunnels@, id, max_selection, available@)
            } else {
                &&& message matches crate::SyncMessage::Game(SyncMessage::WaitingScreen(list))
                &&& self.is_waiting_names(tunnels@, list)
            },
            State::TeamDisplay => if kind == ValueKind::Player {
                &&& message matches crate::SyncMessage::Game(SyncMessage::FindTeam(name))
                &&& name@ == self.team_name_text(id)
            } else {
                &&& message matches crate::SyncMessage::Game(SyncMessage::TeamDisplay(list))
                &&& shows_teams(
                    match self.team_manager {
                        Some(team_manager) => team_manager.formed(),
                        None => None,
                    },
                    list,
                )
            },
            State::Leaderboard(slide) => if kind == ValueKind::Player {
                &&& message matches crate::SyncMessage::Game(SyncMessage::Score { index, count, score })
                &&& index == slide
                &&& count == self.fuiz_config.slides@.len()
                &&& self.is_score(id, score)
            } else {
                &&& message matches crate::SyncMessage::Game(SyncMessage::Leaderboard { index, count, leaderboard })
                &&& index == slide
                &&& count == self.fuiz_config.slides@.len()
                &&& self.is_leaderboard_message(leaderboard)
            },
            State::Slide(current) => current.state.is_state_message(
                id,
                kind,
                self.spec_stage(tunnels, now, current.index),
                message,
            ),
            State::Done => match kind {
                ValueKind::Host => {
                    &&& message matches crate::SyncMessage::Game(SyncMessage::Summary(summary))
                    &&& self.is_host_summary(summary)
                },
                ValueKind::Player => {
                    &&& message matches crate::SyncMessage::Game(SyncMessage::Summary(summary))
                    &&& self.is_player_summary(id, summary)
                },
                ValueKind::Unassigned => message == crate::SyncMessage::Game(SyncMessage::NotAllowed),
            },
        }
    }

    /// The name of a player's team, or nothing.
    pub open spec fn team_name_text(&self, id: Id) -> Seq<char> {
        match self.watchers.spec_team_name(id) {
            Some(name) => name@,
            None => Seq::empty(),
        }
    }

    fn team_name_of(&self, id: Id) -> (name: String)
        ensures
            name@ == self.team_name_text(id),
    {
        match self.watchers.get_team_name(id) {
            Some(name) => name,
            None => String::new(),
        }
    }

    /// Tells a participant how things stand.
    pub fn state_message(&self, watcher_id: Id, watcher_kind: ValueKind, tunnels: &Tunnels, now: Timestamp) -> (message:
        crate::SyncMessage)
        requires
            self.wf(),
        ensures
            self.is_state_message(watcher_id, watcher_kind, *tunnels, now, message),
    {
        match &self.state {
            State::WaitingScreen => {
                if let Some(team_manager) = &self.team_manager {
                    if !team_manager.is_random_assignments() && watcher_kind == ValueKind::Player {
                        let (max_selection, available) = self.teammates_offer(watcher_id, team_manager, tunnels);
                        return crate::SyncMessage::Game(SyncMessage::ChooseTeammates { max_selection, available });
                    }
                }
                crate::SyncMessage::Game(SyncMessage::WaitingScreen(self.waiting_screen_names(tunnels)))
            },
            State::TeamDisplay => match watcher_kind {
                ValueKind::Player => crate::SyncMessage::Game(SyncMessage::FindTeam(self.team_name_of(watcher_id))),
                _ => crate::SyncMessage::Game(SyncMessage::TeamDisplay(self.team_names())),
            },
            State::Leaderboard(index) => match watcher_kind {
                ValueKind::Player => crate::SyncMessage::Game(
                    SyncMessage::Score {
                        index: *index,
                        count: self.fuiz_config.len(),
                        score: self.score(watcher_id),
                    },
                ),
                _ => crate::SyncMessage::Game(
                    SyncMessage::Leaderboard {
                        index: *index,
                        count: self.fuiz_config.len(),
                        leaderboard: self.leaderboard_message(),
                    },
                ),
            },
            State::Slide(current) => {
                let stage = self.stage(tunnels, now, current.index);
                current.state.state_message(watcher_id, watcher_kind, &stage)
            },
            State::Done => match watcher_kind {
                ValueKind::Host => crate::SyncMessage::Game(SyncMessage::Summary(self.host_summary())),
                ValueKind::Player => crate::SyncMessage::Game(SyncMessage::Summary(self.player_summary(watcher_id))),
                ValueKind::Unassigned => crate::SyncMessage::Game(SyncMessage::NotAllowed),
            },
        }
    }
}

/// Whether `read` holds the points by name.
pub open spec fn results_named(names: Names, scores: Seq<(Id, Vec<u64>)>, read: Seq<(String, Vec<u64>)>) -> bool {
    &&& read.len() == scores.len()
    &&& forall|i: int|
        0 <= i < read.len() ==> {
            &&& (#[trigger] read[i]).0@ == names.name_or_unknown(scores[i].0)
            &&& read[i].1@ == scores[i].1@
        }
}

fn copy_points(points: &Vec<u64>) -> (copy: Vec<u64>)
    ensures
        copy@ == points@,
{
    let mut copy: Vec<u64> = Vec::new();
    let mut i: usize = 0;
    while i < points.len()
        invariant
            i <= points.len(),
            copy@ == points@.take(i as int),
        decreases points.len() - i,
    {
        copy.push(points[i]);
        i = i + 1;
        assert(copy@ =~= points@.take(i as int));
    }
    assert(copy@ =~= points@);
    copy
}

// ---- what is told to everyone ----

/// What everyone with a part in the game hears of.
#[derive(Copy, Clone, Debug, PartialEq, Eq, Structural)]
pub enum News {
    /// The teams.
    Teams,
    /// The points.
    Points,
    /// The end.
    End,
}

impl Game {
    /// Whether `message` is what such a participant hears of the news.
    pub open spec fn is_news(&self, news: News, id: Id, kind: ValueKind, message: UpdateMessage) -> bool {
        match (news, kind) {
            (News::Teams, ValueKind::Player) => {
                &&& message matches UpdateMessage::FindTeam(name)
                &&& name@ == self.team_name_text(id)
            },
            (News::Teams, ValueKind::Host) => {
                &&& message matches UpdateMessage::TeamDisplay(list)
                &&& shows_teams(
                    match self.team_manager {
                        Some(team_manager) => team_manager.formed(),
                        None => None,
                    },
                    list,
                )
            },
            (News::Points, ValueKind::Player) => {
                &&& message matches UpdateMessage::Score { score }
                &&& self.is_score(id, score)
            },
            (News::Points, ValueKind::Host) => {
                &&& message matches UpdateMessage::Leaderboard { leaderboard }
                &&& self.is_leaderboard_message(leaderboard)
            },
            (News::End, ValueKind::Player) => {
                &&& message matches UpdateMessage::Summary(summary)
                &&& self.is_player_summary(id, summary)
            },
            (News::End, ValueKind::Host) => {
                &&& message matches UpdateMessage::Summary(summary)
                &&& self.is_host_summary(summary)
            },
            (_, ValueKind::Unassigned) => false,
        }
    }

    /// Whether `effect` tells one participant the news.
    pub open spec fn is_told(&self, news: News, effect: Effect, id: Id) -> bool {
        &&& effect matches Effect::Send { to: Audience::One(to), message: crate::UpdateMessage::Game(message) }
        &&& to == id
        &&& self.is_news(news, id, self.watchers.values()[id].spec_kind(), message)
    }

    /// Whether `effects` tell everyone with a part in the game who can be reached the news.
    pub open spec fn told_each(&self, news: News, open: Set<Id>, effects: Seq<Effect>) -> bool {
        let ids = self.watchers.participants(open);
        &&& effects.len() == ids.len()
        &&& forall|i: int| 0 <= i < ids.len() ==> self.is_told(news, #[trigger] effects[i], ids[i])
    }

    fn tell_each(&self, news: News, tunnels: &Tunnels) -> (effects: Vec<Effect>)
        requires
            self.wf(),
        ensures
            self.told_each(news, tunnels@, effects@),
    {
        let ids = self.watchers.participants_vec(tunnels);
        proof {
            self.watchers.lemma_participants(tunnels@);
        }
        let mut effects: Vec<Effect> = Vec::new();
        let mut i: usize = 0;
        while i < ids.len()
            invariant
                i <= ids.len(),
                self.wf(),
                ids@ == self.watchers.participants(tunnels@),
                forall|j: int| 0 <= j < ids.len() ==> self.watchers.values().contains_key(#[trigger] ids[j]),
                forall|j: int|
                    0 <= j < ids.len() ==> self.watchers.values()[#[trigger] ids[j]].spec_kind()
                        != ValueKind::Unassigned,
                effects.len() == i,
                forall|j: int| 0 <= j < i ==> self.is_told(news, #[trigger] effects[j], ids[j]),
            decreases ids.len() - i,
        {
            let id = ids[i];
            let message = match (news, self.watchers.kind_of(id)) {
                (News::Teams, ValueKind::Player) => UpdateMessage::FindTeam(self.team_name_of(id)),
                (News::Teams, _) => UpdateMessage::TeamDisplay(self.team_names()),
                (News::Points, ValueKind::Player) => UpdateMessage::Score { score: self.score(id) },
                (News::Points, _) => UpdateMessage::Leaderboard { leaderboard: self.leaderboard_message() },
                (News::End, ValueKind::Player) => UpdateMessage::Summary(self.player_summary(id)),
                (News::End, _) => UpdateMessage::Summary(self.host_summary()),
            };
            effects.push(Effect::Send { to: Audience::One(id), message: crate::UpdateMessage::Game(message) });
            i = i + 1;
        }
        effects
    }

    // ---- from screen to screen ----

    /// Whether showing slide `index` leads from here to `after`.
    pub open spec fn slide_shown(
        &self,
        after: &Game,
        index: int,
        tunnels: Tunnels,
        now: Timestamp,
        effects: Seq<Effect>,
    ) -> bool {
        &&& *after == Game { state: after.state, ..*self }
        &&& after.state matches State::Slide(current)
        &&& current.index == index
        &&& exists|fresh: SlideState| {
            &&& #[trigger] fresh.is_fresh(self.fuiz_config.slides@[index])
            &&& fresh.played(current.state, self.spec_stage(tunnels, now, index as usize), effects)
        }
    }

    /// Whether ending the game leads from here to `after`: everyone hears how it went.
    pub open spec fn concluded(&self, after: &Game, open: Set<Id>, effects: Seq<Effect>) -> bool {
        &&& *after == Game { state: State::Done, ..*self }
        &&& after.told_each(News::End, open, effects)
    }

    /// Whether going to slide `index` leads from here to `after`: to the end, where there is no such
    /// slide.
    pub open spec fn went_to(
        &self,
        after: &Game,
        index: int,
        tunnels: Tunnels,
        now: Timestamp,
        effects: Seq<Effect>,
    ) -> bool {
        if index < self.fuiz_config.slides@.len() {
            self.slide_shown(after, index, tunnels, now, effects)
        } else {
            self.concluded(after, tunnels@, effects)
        }
    }

    /// Ends the game, and tells everyone how it went.
    pub fn announce_summary(&mut self, tunnels: &Tunnels) -> (effects: Vec<Effect>)
        requires
            old(self).wf(),
        ensures
            final(self).wf(),
            final(self).has_room(),
            old(self).concluded(final(self), tunnels@, effects@),
    {
        self.state = State::Done;
        self.tell_each(News::End, tunnels)
    }

    fn go_to(&mut self, index: usize, tunnels: &Tunnels, now: Timestamp) -> (effects: Vec<Effect>)
        requires
            old(self).wf(),
        ensures
            final(self).wf(),
            final(self).has_room(),
            old(self).went_to(final(self), index as int, *tunnels, now, effects@),
    {
        if index >= self.fuiz_config.len() {
            return self.announce_summary(tunnels);
        }
        let mut state = self.fuiz_config.slides[index].to_state();
        let ghost fresh = state;
        let stage = self.stage(tunnels, now, index);
        let effects = state.play(&stage);
        assert(fresh.is_fresh(self.fuiz_config.slides@[index as int]));
        self.state = State::Slide(Box::new(CurrentSlide { index, state }));
        effects
    }

    /// Whether starting the game leads from here to `after`: the teams are formed and shown first,
    /// where there are any, then the first slide follows; without slides the game is over.
    pub open spec fn started(&self, after: &Game, tunnels: Tunnels, now: Timestamp, effects: Seq<Effect>) -> bool {
        if self.fuiz_config.slides@.len() > 0 && self.team_manager is Some && self.state is WaitingScreen {
            &&& after.team_manager is Some
            &&& *after == Game {
                watchers: after.watchers,
                names: after.names,
                team_manager: after.team_manager,
                state: after.state,
                ..*self
            }
            &&& exists|done: bool| {
                &&& #[trigger] self.team_manager->0.finalized(
                    after.team_manager->0,
                    self.watchers,
                    after.watchers,
                    self.names,
                    after.names,
                    tunnels@,
                    Profanity::Censor,
                    done,
                )
                &&& if done {
                    after.state == State::TeamDisplay && after.told_each(News::Teams, tunnels@, effects)
                } else {
                    after.state == self.state && effects.len() == 0
                }
            }
        } else {
            self.went_to(after, 0, tunnels, now, effects)
        }
    }

    /// Starts the game.
    pub fn play(&mut self, tunnels: &Tunnels, now: Timestamp) -> (effects: Vec<Effect>)
        requires
            old(self).wf(),
        ensures
            final(self).wf(),
            final(self).has_room() || !old(self).has_room(),
            old(self).started(final(self), *tunnels, now, effects@),
    {
        if self.fuiz_config.len() > 0 && matches!(self.state, State::WaitingScreen) {
            if let Some(team_manager) = &mut self.team_manager {
                let done = team_manager.finalize(&mut self.watchers, &mut self.names, tunnels, Profanity::Censor);
                if done {
                    self.state = State::TeamDisplay;
                }
                proof {
                    assert(old(self).team_manager->0.finalized(
                        self.team_manager->0,
                        old(self).watchers,
                        self.watchers,
                        old(self).names,
                        self.names,
                        tunnels@,
                        Profanity::Censor,
                        done,
                    ));
                }
                if done {
                    return self.tell_each(News::Teams, tunnels);
                }
                return Vec::new();
            }
        }
        self.go_to(0, tunnels, now)
    }

    /// Whether leaving a slide leads from here to `after`: to the standings, or past them, where they
    /// are left out.
    pub open spec fn finished(&self, after: &Game, tunnels: Tunnels, now: Timestamp, effects: Seq<Effect>) -> bool {
        match self.state {
            State::Slide(current) => if self.options.no_leaderboard {
                self.went_to(after, current.index + 1, tunnels, now, effects)
            } else {
                &&& *after == Game { state: State::Leaderboard(current.index), ..*self }
                &&& after.told_each(News::Points, tunnels@, effects)
            },
            _ => *after == *self && effects.len() == 0,
        }
    }

    /// Leaves the slide that is shown.
    pub fn finish_slide(&mut self, tunnels: &Tunnels, now: Timestamp) -> (effects: Vec<Effect>)
        requires
            old(self).wf(),
        ensures
            final(self).wf(),
            final(self).has_room() || !old(self).has_room(),
            old(self).finished(final(self), *tunnels, now, effects@),
    {
        let index: usize = match &self.state {
            State::Slide(current) => current.index,
            _ => {
                return Vec::new();
            },
        };
        if self.options.no_leaderboard {
            self.go_to(index + 1, tunnels, now)
        } else {
            self.state = State::Leaderboard(index);
            self.tell_each(News::Points, tunnels)
        }
    }

    /// Whether closing the game leads from here to `after`: every connection is closed.
    pub open spec fn closed(&self, after: &Game, open: Set<Id>, effects: Seq<Effect>) -> bool {
        let ids = self.watchers.ids().filter(|id: Id| open.contains(id));
        &&& *after == Game { state: State::Done, ..*self }
        &&& effects.len() == ids.len()
        &&& forall|i: int| 0 <= i < ids.len() ==> #[trigger] effects[i] == Effect::Close(ids[i])
    }

    /// Closes the game.
    pub fn mark_as_done(&mut self, tunnels: &Tunnels) -> (effects: Vec<Effect>)
        requires
            old(self).wf(),
        ensures
            final(self).wf(),
            final(self).has_room(),
            old(self).closed(final(self), tunnels@, effects@),
    {
        self.state = State::Done;
        let ids = self.watchers.vec(tunnels);
        let mut effects: Vec<Effect> = Vec::new();
        let mut i: usize = 0;
        while i < ids.len()
            invariant
                i <= ids.len(),
                effects.len() == i,
                forall|j: int| 0 <= j < i ==> #[trigger] effects[j] == Effect::Close(ids[j]),
            decreases ids.len() - i,
        {
            effects.push(Effect::Close(ids[i]));
            i = i + 1;
        }
        effects
    }

    // ---- names ----

    /// What holds throughout, for a player.
    pub open spec fn options_told(&self, watcher_id: Id) -> Effect {
        synced(
            watcher_id,
            SyncMessage::Metainfo(
                MetainfoMessage::Player {
                    score: self.points_of(watcher_id),
                    show_answers: self.options.show_answers,
                },
            ),
        )
    }

    /// Tells a player what holds throughout.
    pub fn update_player_with_options(&self, watcher_id: Id) -> (effect: Effect)
        requires
            self.wf(),
        ensures
            effect == self.options_told(watcher_id),
    {
        Effect::Sync {
            to: watcher_id,
            message: crate::SyncMessage::Game(
                SyncMessage::Metainfo(
                    MetainfoMessage::Player {
                        score: self.points(watcher_id),
                        show_answers: self.options.show_answers,
                    },
                ),
            ),
        }
    }

    /// Whether `effect` tells a player the player's name.
    pub open spec fn is_name_told(&self, effect: Effect, watcher_id: Id, name: Seq<char>) -> bool {
        &&& effect matches Effect::Send {
            to: Audience::One(to),
            message: crate::UpdateMessage::Game(UpdateMessage::NameAssign(told)),
        }
        &&& to == watcher_id
        &&& told@ == name
    }

    /// Whether `effect` tells a participant how things stand.
    pub open spec fn is_state_told(
        &self,
        effect: Effect,
        watcher_id: Id,
        kind: ValueKind,
        tunnels: Tunnels,
        now: Timestamp,
    ) -> bool {
        &&& effect matches Effect::Sync { to, message }
        &&& to == watcher_id
        &&& self.is_state_message(watcher_id, kind, tunnels, now, message)
    }

    /// Whether `effect` offers a player the others to be in a team with.
    pub open spec fn is_offer_told(&self, effect: Effect, player: Id, open: Set<Id>) -> bool {
        &&& effect matches Effect::Send {
            to: Audience::One(to),
            message: crate::UpdateMessage::Game(UpdateMessage::ChooseTeammates { max_selection, available }),
        }
        &&& to == player
        &&& self.offers_teammates(open, player, max_selection, available@)
    }

    /// Those who are offered the others to be in a team with: the players, where they have a say.
    pub open spec fn choosers(&self, open: Set<Id>) -> Seq<Id> {
        if self.team_manager is Some && !self.team_manager->0.random() {
            self.watchers.reachable(ValueKind::Player, open)
        } else {
            Seq::empty()
        }
    }

    /// Whether `effects` tell those who wait of a new player.
    pub open spec fn is_arrival_told(&self, effects: Seq<Effect>, open: Set<Id>) -> bool {
        let players = self.choosers(open);
        &&& effects.len() == players.len() + 1
        &&& forall|i: int| 0 <= i < players.len() ==> self.is_offer_told(#[trigger] effects[i], players[i], open)
        &&& effects.last() matches Effect::Send {
            to: Audience::Kind(ValueKind::Host),
            message: crate::UpdateMessage::Game(UpdateMessage::WaitingScreen(list)),
        }
        &&& self.is_waiting_names(open, list)
    }

    /// What a player hears who is offered the others to be in a team with.
    pub fn choose_teammates_message(
        &self,
        watcher_id: Id,
        team_manager: &TeamManager<NameStyle>,
        tunnels: &Tunnels,
    ) -> (message: UpdateMessage)
        requires
            self.wf(),
            self.team_manager == Some(*team_manager),
        ensures
            self.is_offer_told(to_one(watcher_id, message), watcher_id, tunnels@),
    {
        let (max_selection, available) = self.teammates_offer(watcher_id, team_manager, tunnels);
        UpdateMessage::ChooseTeammates { max_selection, available }
    }

    fn tell_arrival(&self, tunnels: &Tunnels) -> (effects: Vec<Effect>)
        requires
            self.wf(),
        ensures
            self.is_arrival_told(effects@, tunnels@),
    {
        let mut effects: Vec<Effect> = Vec::new();
        if let Some(team_manager) = &self.team_manager {
            if !team_manager.is_random_assignments() {
                let players = self.watchers.specific_vec(ValueKind::Player, tunnels);
                let mut i: usize = 0;
                while i < players.len()
                    invariant
                        i <= players.len(),
                        self.wf(),
                        self.team_manager == Some(*team_manager),
                        effects.len() == i,
                        forall|j: int|
                            0 <= j < i ==> self.is_offer_told(#[trigger] effects[j], players[j], tunnels@),
                    decreases players.len() - i,
                {
                    let message = self.choose_teammates_message(players[i], team_manager, tunnels);
                    effects.push(
                        Effect::Send { to: Audience::One(players[i]), message: crate::UpdateMessage::Game(message) },
                    );
                    i = i + 1;
                }
            }
        }
        effects.push(
            Effect::Send {
                to: Audience::Kind(ValueKind::Host),
                message: crate::UpdateMessage::Game(UpdateMessage::WaitingScreen(self.waiting_screen_names(tunnels))),
            },
        );
        effects
    }

    /// Whether putting a player into a team leads from here to `after`, with this team name.
    pub open spec fn team_joined(&self, after: &Game, watcher_id: Id, joined: Option<String>) -> bool {
        match self.team_manager {
            None => *after == *self && joined is None,
            Some(team_manager) => {
                &&& after.team_manager is Some
                &&& *after == Game { watchers: after.watchers, team_manager: after.team_manager, ..*self }
                &&& team_manager.player_added(
                    after.team_manager->0,
                    self.watchers,
                    after.watchers,
                    watcher_id,
                    joined,
                )
            },
        }
    }

    /// Whether `effects` introduce a player: the player hears of the team, the name, what holds
    /// throughout and how things stand; those who wait hear of the player, unless the name is empty.
    pub open spec fn is_introduction(
        &self,
        watcher_id: Id,
        name: Seq<char>,
        joined: Option<String>,
        tunnels: Tunnels,
        now: Timestamp,
        effects: Seq<Effect>,
    ) -> bool {
        let start: int = if joined is Some { 1 } else { 0 };
        &&& effects.len() >= start + 3
        &&& joined is Some ==> effects[0] == to_one(watcher_id, UpdateMessage::FindTeam(joined->0))
        &&& self.is_name_told(effects[start], watcher_id, name)
        &&& effects[start + 1] == self.options_told(watcher_id)
        &&& if name.len() > 0 && self.state is WaitingScreen {
            self.is_arrival_told(effects.subrange(start + 2, effects.len() - 1), tunnels@)
        } else {
            effects.len() == start + 3
        }
        &&& self.is_state_told(effects.last(), watcher_id, ValueKind::Player, tunnels, now)
    }

    /// Whether introducing a player leads from here to `after`.
    pub open spec fn introduced(
        &self,
        after: &Game,
        watcher_id: Id,
        name: Seq<char>,
        tunnels: Tunnels,
        now: Timestamp,
        effects: Seq<Effect>,
    ) -> bool {
        exists|joined: Option<String>| #[trigger]
            self.team_joined(after, watcher_id, joined) && after.is_introduction(
                watcher_id,
                name,
                joined,
                tunnels,
                now,
                effects,
            )
    }

    /// Introduces a player under a name.
    pub fn update_player_with_name(&mut self, watcher_id: Id, name: &str, tunnels: &Tunnels, now: Timestamp) -> (effects: Vec<
        Effect,
    >)
        requires
            old(self).wf(),
        ensures
            final(self).wf(),
            final(self).state == old(self).state,
            old(self).introduced(final(self), watcher_id, name@, *tunnels, now, effects@),
    {
        let mut effects: Vec<Effect> = Vec::new();
        let mut joined: Option<String> = None;
        if let Some(team_manager) = &mut self.team_manager {
            joined = team_manager.add_player(watcher_id, &mut self.watchers);
        }
        assert(old(self).team_joined(self, watcher_id, joined));
        let ghost start: int = if joined is Some { 1 } else { 0 };
        if let Some(team_name) = &joined {
            effects.push(
                Effect::Send {
                    to: Audience::One(watcher_id),
                    message: crate::UpdateMessage::Game(UpdateMessage::FindTeam(team_name.clone())),
                },
            );
        }
        effects.push(
            Effect::Send {
                to: Audience::One(watcher_id),
                message: crate::UpdateMessage::Game(UpdateMessage::NameAssign(name.to_owned())),
            },
        );
        effects.push(self.update_player_with_options(watcher_id));
        let ghost first = effects@;
        let ghost mut arrival: Seq<Effect> = Seq::empty();
        if !name.is_empty() && matches!(self.state, State::WaitingScreen) {
            let mut more = self.tell_arrival(tunnels);
            proof {
                arrival = more@;
            }
            effects.append(&mut more);
        }
        let message = self.state_message(watcher_id, ValueKind::Player, tunnels, now);
        effects.push(Effect::Sync { to: watcher_id, message });
        proof {
            assert(effects@ =~= first + arrival + seq![effects@.last()]);
            assert(effects@.subrange(start + 2, effects@.len() - 1) =~= arrival);
            assert(effects@[start] == first[start] && effects@[start + 1] == first[start + 1]);
            assert(joined is Some ==> effects@[0] == first[0]);
            assert(self.is_introduction(watcher_id, name@, joined, *tunnels, now, effects@));
        }
        effects
    }

    /// Whether `after` is this game with a new player under a new name.
    pub open spec fn player_named(&self, after: &Game, watcher_id: Id, name: Seq<char>) -> bool {
        &&& *after == Game { watchers: after.watchers, names: after.names, ..*self }
        &&& self.names.named(&after.names, watcher_id, name)
        &&& after.watchers.ids() == self.watchers.ids()
        &&& after.watchers.away() == self.watchers.away()
        &&& after.watchers.capacity() == self.watchers.capacity()
        &&& after.watchers.values() == if self.watchers.values().contains_key(watcher_id) {
            self.watchers.values().insert(watcher_id, Value::Player(PlayerValue::Individual))
        } else {
            self.watchers.values()
        }
    }

    /// Whether taking on a name that is granted leads from here to `after`.
    pub open spec fn name_taken(
        &self,
        after: &Game,
        watcher_id: Id,
        asked: Seq<char>,
        tunnels: Tunnels,
        now: Timestamp,
        effects: Seq<Effect>,
    ) -> bool {
        exists|named: Game| #[trigger]
            self.player_named(&named, watcher_id, trimmed(asked)) && named.introduced(
                after,
                watcher_id,
                trimmed(asked),
                tunnels,
                now,
                effects,
            )
    }

    /// Why a name is refused.
    pub open spec fn refusal(&self, watcher_id: Id, asked: Seq<char>) -> Option<names::Error> {
        name_error(
            self.names,
            watcher_id,
            asked.len(),
            trimmed(asked),
            names::inappropriate(trimmed(asked)),
        )
    }

    /// Gives a participant a name, unless there is something against it.
    pub fn assign_player_name(&mut self, watcher_id: Id, name: &str, tunnels: &Tunnels, now: Timestamp) -> (result: Result<
        Vec<Effect>,
        names::Error,
    >)
        requires
            old(self).wf(),
        ensures
            final(self).wf(),
            final(self).state == old(self).state,
            match result {
                Ok(effects) => {
                    &&& old(self).refusal(watcher_id, name@) is None
                    &&& old(self).name_taken(final(self), watcher_id, name@, *tunnels, now, effects@)
                },
                Err(error) => {
                    &&& old(self).refusal(watcher_id, name@) == Some(error)
                    &&& *final(self) == *old(self)
                },
            },
    {
        match self.names.set_name(watcher_id, name, Profanity::Censor) {
            Err(error) => Err(error),
            Ok(taken) => {
                self.watchers.update_watcher_value(watcher_id, Value::Player(PlayerValue::Individual));
                assert(old(self).player_named(self, watcher_id, trimmed(name@)));
                let ghost named = *self;
                let effects = self.update_player_with_name(watcher_id, taken, tunnels, now);
                assert(named.introduced(self, watcher_id, trimmed(name@), *tunnels, now, effects@));
                Ok(effects)
            },
        }
    }

    /// Whether names of this style were drawn, one for each try, and all were refused.
    pub open spec fn drew_in_vain(&self, watcher_id: Id, style: NameStyle, draws: Seq<Seq<&'static str>>) -> bool {
        &&& draws.len() == u64::MAX
        &&& forall|i: int|
            0 <= i < draws.len() ==> style.makes(#[trigger] draws[i]) && self.refusal(
                watcher_id,
                title_case(joined(draws[i])),
            ) is Some
    }

    /// Whether welcoming a participant without a name leads from here to `after`: a name is drawn, or
    /// asked for. Nothing happens where every name drawn was refused, in as many tries as there are
    /// numbers to count them.
    pub open spec fn welcomed(
        &self,
        after: &Game,
        watcher_id: Id,
        tunnels: Tunnels,
        now: Timestamp,
        effects: Seq<Effect>,
    ) -> bool {
        match self.options.random_names {
            None => *after == *self && effects == seq![to_one(watcher_id, UpdateMessage::NameChoose)],
            Some(style) => {
                ||| exists|words: Seq<&'static str>| {
                    &&& #[trigger] style.makes(words)
                    &&& self.refusal(watcher_id, title_case(joined(words))) is None
                    &&& self.name_taken(after, watcher_id, title_case(joined(words)), tunnels, now, effects)
                }
                ||| {
                    &&& *after == *self
                    &&& effects.len() == 0
                    &&& exists|draws: Seq<Seq<&'static str>>| #[trigger] self.drew_in_vain(watcher_id, style, draws)
                }
            },
        }
    }

    fn handle_unassigned(&mut self, watcher_id: Id, tunnels: &Tunnels, now: Timestamp) -> (effects: Vec<Effect>)
        requires
            old(self).wf(),
        ensures
            final(self).wf(),
            final(self).state == old(self).state,
            old(self).welcomed(final(self), watcher_id, *tunnels, now, effects@),
    {
        let mut effects: Vec<Effect> = Vec::new();
        match self.options.random_names {
            None => {
                effects.push(
                    Effect::Send {
                        to: Audience::One(watcher_id),
                        message: crate::UpdateMessage::Game(UpdateMessage::NameChoose),
                    },
                );
                assert(effects@ =~= seq![to_one(watcher_id, UpdateMessage::NameChoose)]);
                effects
            },
            Some(style) => {
                let ghost mut draws: Seq<Seq<&'static str>> = Seq::empty();
                let mut attempts: u64 = u64::MAX;
                while attempts > 0
                    invariant
                        old(self).wf(),
                        *self == *old(self),
                        self.options.random_names == Some(style),
                        draws.len() == u64::MAX - attempts,
                        forall|i: int|
                            0 <= i < draws.len() ==> style.makes(#[trigger] draws[i]) && old(self).refusal(
                                watcher_id,
                                title_case(joined(draws[i])),
                            ) is Some,
                    decreases attempts,
                {
                    attempts = attempts - 1;
                    let name = style.get_name();
                    let ghost words = choose|words: Seq<&'static str>| #[trigger]
                        style.makes(words) && name@ == title_case(joined(words));
                    if let Ok(effects) = self.assign_player_name(watcher_id, name.as_str(), tunnels, now) {
                        assert(style.makes(words));
                        return effects;
                    }
                    proof {
                        draws = draws.push(words);
                    }
                }
                assert(old(self).drew_in_vain(watcher_id, style, draws));
                effects
            },
        }
    }

    /// Whether `after` is this game with one more participant.
    pub open spec fn watcher_added(&self, after: &Game, watcher_id: Id) -> bool {
        &&& *after == Game { watchers: after.watchers, ..*self }
        &&& after.watchers.away() == self.watchers.away()
        &&& after.watchers.capacity() == self.watchers.capacity()
        &&& after.watchers.values() == self.watchers.values().insert(watcher_id, Value::Unassigned)
        &&& after.watchers.ids() == self.watchers.ids().push(watcher_id)
    }

    /// Whether letting a participant in leads from here to `after`: the participant is welcomed unless the
    /// game is locked.
    pub open spec fn let_in(
        &self,
        after: &Game,
        watcher_id: Id,
        tunnels: Tunnels,
        now: Timestamp,
        effects: Seq<Effect>,
    ) -> bool {
        exists|added: Game| #[trigger]
            self.watcher_added(&added, watcher_id) && if self.locked {
                *after == added && effects.len() == 0
            } else {
                added.welcomed(after, watcher_id, tunnels, now, effects)
            }
    }

    /// Lets a participant without a name join, and welcomes the participant unless the game is locked.
    pub fn add_unassigned(&mut self, watcher_id: Id, tunnels: &Tunnels, now: Timestamp) -> (result: Result<
        Vec<Effect>,
        watcher::Error,
    >)
        requires
            old(self).wf(),
        ensures
            final(self).wf(),
            final(self).state == old(self).state,
            match result {
                Ok(effects) => {
                    &&& old(self).watchers.join_error(watcher_id) is None
                    &&& old(self).let_in(final(self), watcher_id, *tunnels, now, effects@)
                },
                Err(error) => {
                    &&& old(self).watchers.join_error(watcher_id) == Some(error)
                    &&& *final(self) == *old(self)
                },
            },
    {
        match self.watchers.add_watcher(watcher_id, Value::Unassigned) {
            Err(error) => Err(error),
            Ok(()) => {
                assert(old(self).watcher_added(self, watcher_id));
                if self.locked {
                    Ok(Vec::new())
                } else {
                    Ok(self.handle_unassigned(watcher_id, tunnels, now))
                }
            },
        }
    }
}

// ---- messages, alarms and sessions ----

/// The participants that have these names, as far as anyone has.
pub open spec fn holders_of(names: Names, list: Seq<String>) -> Seq<Id>
    decreases list.len(),
{
    if list.len() == 0 {
        Seq::empty()
    } else {
        let rest = holders_of(names, list.drop_last());
        if names.holders().contains_key(list.last()@) {
            rest.push(names.holders()[list.last()@])
        } else {
            rest
        }
    }
}

/// The number of the slide that an alarm is for.
pub open spec fn alarm_index(alarm: AlarmMessage) -> usize {
    match alarm {
        AlarmMessage::MultipleChoice(alarm) => alarm.index,
        AlarmMessage::TypeAnswer(alarm) => alarm.index,
        AlarmMessage::Order(alarm) => alarm.index,
    }
}

impl Game {
    fn ids_of(&self, list: &Vec<String>) -> (ids: Vec<Id>)
        ensures
            ids@ == holders_of(self.names, list@),
    {
        let mut ids: Vec<Id> = Vec::new();
        let mut i: usize = 0;
        while i < list.len()
            invariant
                i <= list.len(),
                ids@ == holders_of(self.names, list@.take(i as int)),
            decreases list.len() - i,
        {
            assert(list@.take(i + 1).drop_last() =~= list@.take(i as int));
            if let Some(id) = self.names.get_id(list[i].as_str()) {
                ids.push(id);
            }
            i = i + 1;
        }
        assert(list@.take(i as int) =~= list@);
        ids
    }

    /// Whether noting whom a player chose leads from here to `after`.
    pub open spec fn teammates_chosen(&self, after: &Game, watcher_id: Id, chosen: Seq<Id>) -> bool {
        match self.team_manager {
            None => *after == *self,
            Some(team_manager) => {
                &&& after.team_manager is Some
                &&& *after == Game { team_manager: after.team_manager, ..*self }
                &&& after.team_manager->0.target() == team_manager.target()
                &&& after.team_manager->0.random() == team_manager.random()
                &&& after.team_manager->0.style() == team_manager.style()
                &&& after.team_manager->0.formed() == team_manager.formed()
                &&& after.team_manager->0.added() == team_manager.added()
                &&& after.team_manager->0.player_teams() == team_manager.player_teams()
                &&& after.team_manager->0.team_players() == team_manager.team_players()
                &&& match team_manager.choices() {
                    None => after.team_manager->0.choices() is None,
                    Some(choices) => exists|list: Vec<Id>| list@ == chosen && after.team_manager->0.choices() == Some(
                        #[trigger] choices.insert(watcher_id, list),
                    ),
                }
            },
        }
    }

    /// Whether the slide that is shown takes a message, which leads from here to `after`.
    pub open spec fn slide_took(
        &self,
        after: &Game,
        watcher_id: Id,
        message: IncomingMessage,
        tunnels: Tunnels,
        now: Timestamp,
        action: SlideAction,
        effects: Seq<Effect>,
    ) -> bool {
        &&& self.state matches State::Slide(before_slide)
        &&& after.state matches State::Slide(after_slide)
        &&& *after == Game { state: after.state, leaderboard: after.leaderboard, ..*self }
        &&& after_slide.index == before_slide.index
        &&& before_slide.state.took_message(
            after_slide.state,
            watcher_id,
            message,
            self.spec_stage(tunnels, now, before_slide.index),
            self.leaderboard,
            after.leaderboard,
            action,
            effects,
        )
    }

    /// Whether a message for the screen that is shown leads from here to `after`.
    pub open spec fn screen_took(
        &self,
        after: &Game,
        watcher_id: Id,
        message: IncomingMessage,
        tunnels: Tunnels,
        now: Timestamp,
        effects: Seq<Effect>,
    ) -> bool {
        let moves_on = message == IncomingMessage::Host(IncomingHostMessage::Next);
        match self.state {
            State::WaitingScreen | State::TeamDisplay => if moves_on {
                self.started(after, tunnels, now, effects)
            } else {
                *after == *self && effects.len() == 0
            },
            State::Slide(_) => exists|between: Game, action: SlideAction, first: Seq<Effect>| {
                &&& #[trigger] self.slide_took(&between, watcher_id, message, tunnels, now, action, first)
                &&& match action {
                    SlideAction::Stay => *after == between && effects == first,
                    SlideAction::Next => between.finished(after, tunnels, now, effects),
                }
            },
            State::Leaderboard(index) => if moves_on {
                self.went_to(after, index + 1, tunnels, now, effects)
            } else {
                *after == *self && effects.len() == 0
            },
            State::Done => if moves_on {
                self.closed(after, tunnels@, effects)
            } else {
                *after == *self && effects.len() == 0
            },
        }
    }

    /// Whether a message leads from here to `after`: only participants are heard, and only on what is
    /// theirs to say, and the host moves on only from the screen that is shown.
    pub open spec fn took_message(
        &self,
        after: &Game,
        watcher_id: Id,
        message: IncomingMessage,
        tunnels: Tunnels,
        now: Timestamp,
        effects: Seq<Effect>,
    ) -> bool {
        if !self.watchers.values().contains_key(watcher_id) || !message.spec_follows(
            self.watchers.values()[watcher_id].spec_kind(),
        ) {
            *after == *self && effects.len() == 0
        } else {
            match message {
                IncomingMessage::Host(IncomingHostMessage::Lock(lock)) => {
                    *after == (Game { locked: lock, ..*self }) && effects.len() == 0
                },
                IncomingMessage::Host(IncomingHostMessage::NextFrom(screen)) => if screen == self.screen() {
                    self.screen_took(
                        after,
                        watcher_id,
                        IncomingMessage::Host(IncomingHostMessage::Next),
                        tunnels,
                        now,
                        effects,
                    )
                } else {
                    *after == *self && effects.len() == 0
                },
                IncomingMessage::Unassigned(IncomingUnassignedMessage::NameRequest(asked)) => if self.locked
                    || self.options.random_names is Some {
                    *after == *self && effects.len() == 0
                } else {
                    match self.refusal(watcher_id, asked@) {
                        Some(error) => *after == *self && effects == seq![
                            to_one(watcher_id, UpdateMessage::NameError(error)),
                        ],
                        None => self.name_taken(after, watcher_id, asked@, tunnels, now, effects),
                    }
                },
                IncomingMessage::Player(IncomingPlayerMessage::ChooseTeammates(list)) => {
                    &&& self.teammates_chosen(after, watcher_id, holders_of(self.names, list@))
                    &&& effects.len() == 0
                },
                _ => self.screen_took(after, watcher_id, message, tunnels, now, effects),
            }
        }
    }

    fn slide_receive(&mut self, watcher_id: Id, message: IncomingMessage, tunnels: &Tunnels, now: Timestamp) -> (effects: Vec<
        Effect,
    >)
        requires
            old(self).wf(),
            old(self).has_room(),
            old(self).state is Slide,
        ensures
            final(self).wf(),
            old(self).screen_took(final(self), watcher_id, message, *tunnels, now, effects@),
    {
        let count: usize = self.fuiz_config.len();
        let mut action = SlideAction::Stay;
        let mut first: Vec<Effect> = Vec::new();
        match &mut self.state {
            State::Slide(current) => {
                let stage = Stage {
                    watchers: &self.watchers,
                    tunnels,
                    team_manager: match &self.team_manager {
                        Some(team_manager) => Some(team_manager),
                        None => None,
                    },
                    now,
                    index: current.index,
                    count,
                };
                let result = current.state.receive_message(watcher_id, message, &mut self.leaderboard, &stage);
                action = result.0;
                first = result.1;
            },
            _ => {},
        }
        let ghost between = *self;
        assert(old(self).slide_took(&between, watcher_id, message, *tunnels, now, action, first@));
        match action {
            SlideAction::Stay => first,
            SlideAction::Next => self.finish_slide(tunnels, now),
        }
    }

    fn screen_receive(&mut self, watcher_id: Id, message: IncomingMessage, tunnels: &Tunnels, now: Timestamp) -> (effects: Vec<
        Effect,
    >)
        requires
            old(self).wf(),
            old(self).has_room(),
        ensures
            final(self).wf(),
            old(self).screen_took(final(self), watcher_id, message, *tunnels, now, effects@),
    {
        let moves_on = matches!(message, IncomingMessage::Host(IncomingHostMessage::Next));
        let index: usize = match &self.state {
            State::WaitingScreen | State::TeamDisplay => {
                return if moves_on {
                    self.play(tunnels, now)
                } else {
                    Vec::new()
                };
            },
            State::Slide(_) => {
                return self.slide_receive(watcher_id, message, tunnels, now);
            },
            State::Done => {
                return if moves_on {
                    self.mark_as_done(tunnels)
                } else {
                    Vec::new()
                };
            },
            State::Leaderboard(index) => *index,
        };
        if moves_on {
            self.go_to(index + 1, tunnels, now)
        } else {
            Vec::new()
        }
    }

    /// Takes a message.
    pub fn receive_message(&mut self, watcher_id: Id, message: IncomingMessage, tunnels: &Tunnels, now: Timestamp) -> (effects:
        Vec<Effect>)
        requires
            old(self).wf(),
            old(self).has_room(),
        ensures
            final(self).wf(),
            old(self).took_message(final(self), watcher_id, message, *tunnels, now, effects@),
    {
        let kind = match self.watchers.get_watcher_value(watcher_id) {
            None => {
                return Vec::new();
            },
            Some(value) => value.kind(),
        };
        if !message.follows(kind) {
            return Vec::new();
        }
        match message {
            IncomingMessage::Host(IncomingHostMessage::Lock(lock)) => {
                self.locked = lock;
                Vec::new()
            },
            IncomingMessage::Unassigned(IncomingUnassignedMessage::NameRequest(asked)) => {
                if self.locked || self.options.random_names.is_some() {
                    return Vec::new();
                }
                match self.assign_player_name(watcher_id, asked.as_str(), tunnels, now) {
                    Ok(effects) => effects,
                    Err(error) => {
                        let mut effects: Vec<Effect> = Vec::new();
                        effects.push(
                            Effect::Send {
                                to: Audience::One(watcher_id),
                                message: crate::UpdateMessage::Game(UpdateMessage::NameError(error)),
                            },
                        );
                        assert(effects@ =~= seq![to_one(watcher_id, UpdateMessage::NameError(error))]);
                        effects
                    },
                }
            },
            IncomingMessage::Player(IncomingPlayerMessage::ChooseTeammates(list)) => {
                let ids = self.ids_of(&list);
                if let Some(team_manager) = &mut self.team_manager {
                    team_manager.set_preferences(watcher_id, ids);
                }
                Vec::new()
            },
            IncomingMessage::Host(IncomingHostMessage::NextFrom(screen)) => {
                if screen == self.host_screen() {
                    self.screen_receive(watcher_id, IncomingMessage::Host(IncomingHostMessage::Next), tunnels, now)
                } else {
                    Vec::new()
                }
            },
            message => self.screen_receive(watcher_id, message, tunnels, now),
        }
    }

    /// Whether an alarm leads from here to `after`: only one for the slide that is shown matters.
    pub open spec fn took_alarm(
        &self,
        after: &Game,
        alarm: AlarmMessage,
        tunnels: Tunnels,
        now: Timestamp,
        effects: Seq<Effect>,
    ) -> bool {
        match self.state {
            State::Slide(before_slide) => if before_slide.index == alarm_index(alarm) {
                &&& after.state matches State::Slide(after_slide)
                &&& *after == Game { state: after.state, ..*self }
                &&& after_slide.index == before_slide.index
                &&& before_slide.state.took_alarm(
                    after_slide.state,
                    alarm,
                    self.spec_stage(tunnels, now, before_slide.index),
                    effects,
                )
            } else {
                *after == *self && effects.len() == 0
            },
            _ => *after == *self && effects.len() == 0,
        }
    }

    /// Takes an alarm.
    pub fn receive_alarm(&mut self, message: &AlarmMessage, tunnels: &Tunnels, now: Timestamp) -> (effects: Vec<Effect>)
        requires
            old(self).wf(),
        ensures
            final(self).wf(),
            old(self).took_alarm(final(self), *message, *tunnels, now, effects@),
    {
        let slide_index: usize = match message {
            AlarmMessage::MultipleChoice(alarm) => alarm.index,
            AlarmMessage::TypeAnswer(alarm) => alarm.index,
            AlarmMessage::Order(alarm) => alarm.index,
        };
        let count: usize = self.fuiz_config.len();
        match &mut self.state {
            State::Slide(current) => {
                if current.index == slide_index {
                    let stage = Stage {
                        watchers: &self.watchers,
                        tunnels,
                        team_manager: match &self.team_manager {
                            Some(team_manager) => Some(team_manager),
                            None => None,
                        },
                        now,
                        index: current.index,
                        count,
                    };
                    let result = current.state.receive_alarm(message, &stage);
                    result.1
                } else {
                    Vec::new()
                }
            },
            _ => Vec::new(),
        }
    }

    /// Whether `after` is this game with a participant who left out of the count of answers.
    pub open spec fn left(&self, after: &Game, watcher_id: Id) -> bool {
        let news = self.watchers.values().contains_key(watcher_id) && !self.watchers.away().contains(watcher_id);
        &&& *after == Game { watchers: after.watchers, state: after.state, ..*self }
        &&& after.watchers.ids() == self.watchers.ids()
        &&& after.watchers.values() == self.watchers.values()
        &&& after.watchers.capacity() == self.watchers.capacity()
        &&& after.watchers.away() == if news {
            self.watchers.away().insert(watcher_id)
        } else {
            self.watchers.away()
        }
        &&& match (self.state, after.state) {
            (State::Slide(a), State::Slide(b)) => {
                &&& b.index == a.index
                &&& if news {
                    a.state.recounted(
                        b.state,
                        if a.state.has_answer_of(watcher_id) && a.state.live() > 0 {
                            a.state.live() - 1
                        } else {
                            a.state.live() as int
                        },
                    )
                } else {
                    b.state == a.state
                }
            },
            _ => after.state == self.state,
        }
    }

    /// Notes that a participant left.
    pub fn watcher_left(&mut self, watcher_id: Id)
        requires
            old(self).wf(),
        ensures
            final(self).wf(),
            old(self).left(final(self), watcher_id),
    {
        let news = self.watchers.watcher_left(watcher_id);
        if news {
            if let State::Slide(current) = &mut self.state {
                current.state.mark_watcher_left(watcher_id);
            }
        }
    }

    /// Whether `after` is this game with a participant who is back in the count of answers.
    pub open spec fn returned(&self, after: &Game, watcher_id: Id) -> bool {
        let news = self.watchers.away().contains(watcher_id);
        &&& *after == Game { watchers: after.watchers, state: after.state, ..*self }
        &&& after.watchers.ids() == self.watchers.ids()
        &&& after.watchers.values() == self.watchers.values()
        &&& after.watchers.capacity() == self.watchers.capacity()
        &&& after.watchers.away() == self.watchers.away().remove(watcher_id)
        &&& match (self.state, after.state) {
            (State::Slide(a), State::Slide(b)) => {
                &&& b.index == a.index
                &&& if news {
                    a.state.recounted(
                        b.state,
                        if a.state.has_answer_of(watcher_id) {
                            a.state.live() + 1
                        } else {
                            a.state.live() as int
                        },
                    )
                } else {
                    b.state == a.state
                }
            },
            _ => after.state == self.state,
        }
    }

    fn watcher_returned(&mut self, watcher_id: Id)
        requires
            old(self).wf(),
            old(self).has_room(),
        ensures
            final(self).wf(),
            old(self).returned(final(self), watcher_id),
    {
        let news = self.watchers.watcher_returned(watcher_id);
        if news {
            if let State::Slide(current) = &mut self.state {
                current.state.mark_watcher_returned(watcher_id);
            }
        }
    }

    /// Whether `effects` bring a host or a player up to date: the host hears how things stand and
    /// whether the game is locked, a player of the team, the name, what holds throughout and how
    /// things stand.
    pub open spec fn is_update(
        &self,
        watcher_id: Id,
        value: Value,
        tunnels: Tunnels,
        now: Timestamp,
        effects: Seq<Effect>,
    ) -> bool {
        match value {
            Value::Host => {
                &&& effects.len() == 2
                &&& self.is_state_told(effects[0], watcher_id, ValueKind::Host, tunnels, now)
                &&& effects[1] == synced(
                    watcher_id,
                    SyncMessage::Metainfo(MetainfoMessage::Host { locked: self.locked }),
                )
            },
            Value::Player(player) => {
                let start: int = if player is Team { 1 } else { 0 };
                &&& effects.len() == start + 3
                &&& player matches PlayerValue::Team { team_name, .. } ==> effects[0] == to_one(
                    watcher_id,
                    UpdateMessage::FindTeam(team_name),
                )
                &&& self.is_name_told(effects[start], watcher_id, self.names.name_or_unknown(watcher_id))
                &&& effects[start + 1] == self.options_told(watcher_id)
                &&& self.is_state_told(effects[start + 2], watcher_id, ValueKind::Player, tunnels, now)
            },
            Value::Unassigned => false,
        }
    }

    /// Whether bringing a participant up to date leads from here to `after`.
    pub open spec fn session_updated(
        &self,
        after: &Game,
        watcher_id: Id,
        tunnels: Tunnels,
        now: Timestamp,
        effects: Seq<Effect>,
    ) -> bool {
        if !self.watchers.values().contains_key(watcher_id) {
            *after == *self && effects.len() == 0
        } else {
            exists|back: Game| {
                &&& #[trigger] self.returned(&back, watcher_id)
                &&& match self.watchers.values()[watcher_id] {
                    Value::Unassigned => if self.locked {
                        *after == back && effects.len() == 0
                    } else {
                        back.welcomed(after, watcher_id, tunnels, now, effects)
                    },
                    value => *after == back && back.is_update(watcher_id, value, tunnels, now, effects),
                }
            }
        }
    }

    /// Brings a participant up to date who connects again.
    pub fn update_session(&mut self, watcher_id: Id, tunnels: &Tunnels, now: Timestamp) -> (effects: Vec<Effect>)
        requires
            old(self).wf(),
            old(self).has_room(),
        ensures
            final(self).wf(),
            old(self).session_updated(final(self), watcher_id, *tunnels, now, effects@),
    {
        let value = match self.watchers.get_watcher_value(watcher_id) {
            None => {
                return Vec::new();
            },
            Some(value) => value,
        };
        self.watcher_returned(watcher_id);
        let ghost back = *self;
        assert(old(self).returned(&back, watcher_id));
        let mut effects: Vec<Effect> = Vec::new();
        match value {
            Value::Host => {
                let message = self.state_message(watcher_id, ValueKind::Host, tunnels, now);
                effects.push(Effect::Sync { to: watcher_id, message });
                effects.push(
                    Effect::Sync {
                        to: watcher_id,
                        message: crate::SyncMessage::Game(
                            SyncMessage::Metainfo(MetainfoMessage::Host { locked: self.locked }),
                        ),
                    },
                );
                effects
            },
            Value::Player(player) => {
                if let PlayerValue::Team { team_name, .. } = &player {
                    effects.push(
                        Effect::Send {
                            to: Audience::One(watcher_id),
                            message: crate::UpdateMessage::Game(UpdateMessage::FindTeam(team_name.clone())),
                        },
                    );
                }
                effects.push(
                    Effect::Send {
                        to: Audience::One(watcher_id),
                        message: crate::UpdateMessage::Game(
                            UpdateMessage::NameAssign(self.names.get_name_or_unknown(&watcher_id).to_owned()),
                        ),
                    },
                );
                effects.push(self.update_player_with_options(watcher_id));
                let message = self.state_message(watcher_id, ValueKind::Player, tunnels, now);
                effects.push(Effect::Sync { to: watcher_id, message });
                effects
            },
            Value::Unassigned => {
                if self.locked {
                    effects
                } else {
                    self.handle_unassigned(watcher_id, tunnels, now)
                }
            },
        }
    }
}

} // verus!
