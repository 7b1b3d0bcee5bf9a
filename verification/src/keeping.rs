//! Games in a form that can be written down and read back.
use vstd::prelude::*;

use crate::fuiz::config::Fuiz;
use crate::game::{Game, Options, State};
use crate::leaderboard::{histories, rounds_decide_everything, Leaderboard};
use crate::names::{distinct_names, kept_names_come_back, NameStyle, Names, NamesSerde};
use crate::teams::TeamManager;
use crate::watcher::{kept_participants_come_back, Id, Value, Watchers};

verus! {

/// A game, with nothing in it that can be found again from the rest.
pub struct KeptGame {
    /// The quiz.
    pub fuiz_config: Fuiz,
    /// Everyone who takes part, what they are, and whether they are away.
    pub participants: Vec<(Id, Value, bool)>,
    /// How many can take part besides the host.
    pub max_players: usize,
    /// Their names.
    pub names: NamesSerde,
    /// Their points, round by round.
    pub rounds: Vec<Vec<(Id, u64)>>,
    /// Where the game is.
    pub state: State,
    /// How it is played.
    pub options: Options,
    /// Whether nobody gets a name any more.
    pub locked: bool,
    /// The teams, where there are any.
    pub team_manager: Option<TeamManager<NameStyle>>,
}

impl KeptGame {
    /// Whether this is what is kept of a game.
    pub open spec fn is_of(&self, game: Game) -> bool {
        &&& self.fuiz_config == game.fuiz_config
        &&& game.watchers.has_entries(self.participants@)
        &&& self.max_players == game.watchers.capacity()
        &&& game.names.restored(self.names.mapping@)
        &&& histories(self.rounds@) == game.leaderboard.history()
        &&& self.state == game.state
        &&& self.options == game.options
        &&& self.locked == game.locked
        &&& self.team_manager == game.team_manager
    }

    /// The game that was kept; `None` where this is kept of no game.
    pub fn restore(self) -> (game: Option<Game>)
        ensures
            match game {
                Some(game) => game.wf() && self.is_of(game),
                None => forall|game: Game| #[trigger] self.is_of(game) ==> !game.wf(),
            },
    {
        let ghost kept = self;
        let watchers = match Watchers::from_entries(self.participants, self.max_players) {
            Some(watchers) => watchers,
            None => {
                return None;
            },
        };
        let names = match Names::restore(self.names) {
            Some(names) => names,
            None => {
                proof {
                    assert forall|game: Game| #[trigger] kept.is_of(game) implies !game.wf() by {
                        if game.wf() {
                            assert(distinct_names(game.names@));
                        }
                    }
                }
                return None;
            },
        };
        let game = Game {
            fuiz_config: self.fuiz_config,
            watchers,
            names,
            leaderboard: Leaderboard::from_rounds(&self.rounds),
            state: self.state,
            options: self.options,
            locked: self.locked,
            team_manager: self.team_manager,
        };
        if game.is_sound() {
            Some(game)
        } else {
            None
        }
    }
}

impl Game {
    /// What is kept of the game.
    pub fn keep(self) -> (kept: KeptGame)
        requires
            self.wf(),
        ensures
            kept.is_of(self),
    {
        let participants = self.watchers.entries();
        let max_players: usize = self.watchers.max_players();
        let rounds = self.leaderboard.into_rounds();
        KeptGame {
            fuiz_config: self.fuiz_config,
            participants,
            max_players,
            names: self.names.into_serde(),
            rounds,
            state: self.state,
            options: self.options,
            locked: self.locked,
            team_manager: self.team_manager,
        }
    }
}

/// A game that is kept comes back as it was.
pub proof fn kept_games_come_back(game: Game, kept: KeptGame, back: Option<Game>)
    requires
        game.wf(),
        kept.is_of(game),
        match back {
            Some(back) => back.wf() && kept.is_of(back),
            None => forall|other: Game| #[trigger] kept.is_of(other) ==> !other.wf(),
        },
    ensures
        back is Some,
        back->0.fuiz_config == game.fuiz_config,
        back->0.state == game.state,
        back->0.options == game.options,
        back->0.locked == game.locked,
        back->0.team_manager == game.team_manager,
        back->0.watchers.ids() == game.watchers.ids(),
        back->0.watchers.values() == game.watchers.values(),
        back->0.watchers.away() == game.watchers.away(),
        back->0.watchers.capacity() == game.watchers.capacity(),
        back->0.names@ == game.names@,
        back->0.names.holders() == game.names.holders(),
        back->0.leaderboard.history() == game.leaderboard.history(),
        back->0.leaderboard.totals() == game.leaderboard.totals(),
        back->0.leaderboard.standings() == game.leaderboard.standings(),
        back->0.leaderboard.prior_standings() == game.leaderboard.prior_standings(),
{
    let other = back->0;
    kept_participants_come_back(game.watchers, other.watchers, kept.participants@);
    kept_names_come_back(game.names, other.names);
    rounds_decide_everything(game.leaderboard, other.leaderboard);
}

} // verus!
