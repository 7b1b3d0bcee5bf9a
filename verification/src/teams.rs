//! Teams: forming them, and who is in which.
use vstd::prelude::*;

use crate::formation::{
    balanced, chose, concatenated, consolidated, flat, grouped_by, groups_hold_the_players,
    groups_without_choices_are_single, holds_both, is_grouping, leader, leader_is_unique, led_by,
    lemma_members_are_apart, lemma_members_count, lemma_no_players, lemma_team_starts, members, merged,
    mutual, pairs_have_one_leader, redistributed, room, single_players_are_dealt_out_evenly, team_start,
    teams_hold_everyone_once, teams_needed, those_led_alike_stay_together, views, PreferenceGroups,
};
use crate::game::Profanity;
use crate::id_map::IdMap;
use crate::names::{
    accepted_names_are_fit, accepts, inappropriate, trimmed, Names, NamingScheme, MAX_NAME_LENGTH,
};
use crate::random::{in_random_order, was_shuffled};
use crate::seqs::lemma_filter_take;
use crate::session::Tunnels;
use crate::watcher::{Id, PlayerValue, Value, ValueKind, Watchers};
use crate::TruncatedVec;

verus! {

/// How many team names are shown at most.
pub const SHOWN_TEAMS: usize = 50;

/// Forms teams, and knows who is in which.
#[derive(Debug)]
pub struct TeamManager<N: NamingScheme> {
    /// The team of each player.
    pub player_to_team: IdMap<Id>,
    /// The number of players aimed at for each team.
    pub optimal_size: usize,
    /// Whether players have no say.
    pub assign_random: bool,
    /// How teams are named.
    pub name_style: N,
    /// Whom the players chose, where they have a say.
    pub preferences: Option<IdMap<Vec<Id>>>,
    /// The teams with their names, once they are formed.
    pub teams: Option<Vec<(Id, String)>>,
    /// How many players have been added since.
    pub next_team_to_receive_player: usize,
    /// The players of each team.
    pub team_to_players: IdMap<Vec<Id>>,
}

/// `map` with every player of the teams bound to the team; where one is in several, to the last.
pub open spec fn assigned(map: Map<Id, Id>, teams: Seq<(Id, String, Vec<Id>)>) -> Map<Id, Id>
    decreases teams.len(),
{
    if teams.len() == 0 {
        map
    } else {
        bound(assigned(map, teams.drop_last()), teams.last().2@, teams.last().0)
    }
}

/// `map` with every player bound to the team.
pub open spec fn bound(map: Map<Id, Id>, players: Seq<Id>, team: Id) -> Map<Id, Id> {
    Map::new(
        |id: Id| map.contains_key(id) || players.contains(id),
        |id: Id|
            if players.contains(id) {
                team
            } else {
                map[id]
            },
    )
}

/// `map` with every team bound to its players.
pub open spec fn enlisted(map: Map<Id, Seq<Id>>, teams: Seq<(Id, String, Vec<Id>)>) -> Map<Id, Seq<Id>>
    decreases teams.len(),
{
    if teams.len() == 0 {
        map
    } else {
        enlisted(map, teams.drop_last()).insert(teams.last().0, teams.last().2@)
    }
}

/// What a player of a team is.
pub open spec fn team_player(team_name: String, team_id: Id) -> Value {
    Value::Player(PlayerValue::Team { team_name, team_id })
}

/// `values` with every player of one team, as far as they take part, in it.
pub open spec fn joined_team(values: Map<Id, Value>, players: Seq<Id>, name: String, team: Id) -> Map<Id, Value> {
    Map::new(
        |id: Id| values.contains_key(id),
        |id: Id|
            if players.contains(id) {
                team_player(name, team)
            } else {
                values[id]
            },
    )
}

/// `values` with every player of the teams in them.
pub open spec fn joined_teams(values: Map<Id, Value>, teams: Seq<(Id, String, Vec<Id>)>) -> Map<Id, Value>
    decreases teams.len(),
{
    if teams.len() == 0 {
        values
    } else {
        joined_team(joined_teams(values, teams.drop_last()), teams.last().2@, teams.last().1, teams.last().0)
    }
}

/// The players of each team.
pub open spec fn rosters(teams: Seq<(Id, String, Vec<Id>)>) -> Seq<Seq<Id>> {
    teams.map_values(|team: (Id, String, Vec<Id>)| team.2@)
}

/// The teams without their players.
pub open spec fn listed(teams: Seq<(Id, String, Vec<Id>)>) -> Seq<(Id, String)> {
    teams.map_values(|team: (Id, String, Vec<Id>)| (team.0, team.1))
}

/// Whether the source may give this name to a group.
pub open spec fn draws<N: NamingScheme>(style: N, name: String) -> bool {
    call_ensures(N::get_plural_name, (&style,), name)
}

/// Whether `name` is what is left of a name for a group that was drawn and accepted.
pub open spec fn is_drawn<N: NamingScheme>(style: N, names: Names, team_id: Id, name: Seq<char>, profanity: Profanity) -> bool {
    exists|asked: String| {
        &&& #[trigger] draws(style, asked)
        &&& accepts(names, team_id, asked@, profanity)
        &&& name == trimmed(asked@)
    }
}

/// Whether the names were drawn, one for each try, and all were refused.
pub open spec fn tried_in_vain<N: NamingScheme>(
    style: N,
    names: Names,
    team_id: Id,
    profanity: Profanity,
    asked: Seq<String>,
) -> bool {
    &&& asked.len() == u64::MAX
    &&& forall|i: int|
        0 <= i < asked.len() ==> draws(style, #[trigger] asked[i]) && !accepts(names, team_id, asked[i]@, profanity)
}

/// Whether no name was found for a team, in as many tries as there are numbers to count them.
pub open spec fn no_name_found<N: NamingScheme>(style: N, names: Names, team_id: Id, profanity: Profanity) -> bool {
    exists|asked: Seq<String>| #[trigger] tried_in_vain(style, names, team_id, profanity, asked)
}

/// Whether `after` is `before` with the name of every team in it, each under a new identifier, and each
/// drawn from the source and accepted.
pub open spec fn teams_named<N: NamingScheme>(
    style: N,
    before: Names,
    after: Names,
    teams: Seq<(Id, String, Vec<Id>)>,
    profanity: Profanity,
) -> bool {
    &&& forall|i: int|
        0 <= i < teams.len() ==> {
            &&& is_drawn(style, before, (#[trigger] teams[i]).0, teams[i].1@, profanity)
            &&& teams[i].0.was_drawn()
            &&& !before@.contains_key(teams[i].0)
            &&& after@.contains_key(teams[i].0)
            &&& after@[teams[i].0]@ == teams[i].1@
        }
    &&& forall|i: int, j: int| 0 <= i < j < teams.len() ==> (#[trigger] teams[i]).0 != (#[trigger] teams[j]).0
    &&& forall|id: Id| #[trigger]
        before@.contains_key(id) ==> after@.contains_key(id) && after@[id] == before@[id]
    &&& forall|id: Id| #[trigger]
        after@.contains_key(id) ==> before@.contains_key(id) || exists|i: int|
            0 <= i < teams.len() && (#[trigger] teams[i]).0 == id
}

proof fn lemma_accepted_before<N: NamingScheme>(
    style: N,
    before: Names,
    after: Names,
    team_id: Id,
    name: Seq<char>,
    profanity: Profanity,
)
    requires
        before.wf(),
        after.wf(),
        forall|id: Id| #[trigger]
            before@.contains_key(id) ==> after@.contains_key(id) && after@[id] == before@[id],
        is_drawn(style, after, team_id, name, profanity),
    ensures
        is_drawn(style, before, team_id, name, profanity),
{
    let asked = choose|asked: String| {
        &&& #[trigger] draws(style, asked)
        &&& accepts(after, team_id, asked@, profanity)
        &&& name == trimmed(asked@)
    };
    if before.holders().contains_key(name) {
        assert(before@.contains_key(before.holders()[name]));
        assert(after.holders()[name] == before.holders()[name]);
    }
    assert(accepts(before, team_id, asked@, profanity));
}

proof fn lemma_assigned(map: Map<Id, Id>, teams: Seq<(Id, String, Vec<Id>)>, id: Id)
    requires
        forall|i: int, j: int|
            0 <= i < teams.len() && 0 <= j < teams.len() && (#[trigger] teams[i]).2@.contains(id)
                && (#[trigger] teams[j]).2@.contains(id) ==> i == j,
    ensures
        assigned(map, teams).contains_key(id) <==> map.contains_key(id) || exists|i: int|
            0 <= i < teams.len() && (#[trigger] teams[i]).2@.contains(id),
        forall|i: int|
            0 <= i < teams.len() && (#[trigger] teams[i]).2@.contains(id) ==> assigned(map, teams)[id] == teams[i].0,
        map.contains_key(id) && (forall|i: int| 0 <= i < teams.len() ==> !(#[trigger] teams[i]).2@.contains(id))
            ==> assigned(map, teams)[id] == map[id],
    decreases teams.len(),
{
    if teams.len() > 0 {
        let rest = teams.drop_last();
        assert forall|i: int, j: int|
            0 <= i < rest.len() && 0 <= j < rest.len() && (#[trigger] rest[i]).2@.contains(id) && (
            #[trigger] rest[j]).2@.contains(id) implies i == j by {
            assert(teams[i].2@.contains(id) && teams[j].2@.contains(id));
        }
        lemma_assigned(map, rest, id);
        let last = teams.len() - 1;
        if teams.last().2@.contains(id) {
            assert(teams[last].2@.contains(id));
        }
        if exists|i: int| 0 <= i < rest.len() && (#[trigger] rest[i]).2@.contains(id) {
            let i = choose|i: int| 0 <= i < rest.len() && (#[trigger] rest[i]).2@.contains(id);
            assert(teams[i].2@.contains(id));
        }
        if exists|i: int| 0 <= i < teams.len() && (#[trigger] teams[i]).2@.contains(id) {
            let i = choose|i: int| 0 <= i < teams.len() && (#[trigger] teams[i]).2@.contains(id);
            if i < last {
                assert(rest[i].2@.contains(id));
            }
        }
        assert forall|i: int| 0 <= i < teams.len() && (#[trigger] teams[i]).2@.contains(id) implies assigned(
            map,
            teams,
        )[id] == teams[i].0 by {
            if i < last {
                assert(rest[i].2@.contains(id));
                assert(!teams[last].2@.contains(id));
            }
        }
        if forall|i: int| 0 <= i < teams.len() ==> !(#[trigger] teams[i]).2@.contains(id) {
            assert forall|i: int| 0 <= i < rest.len() implies !(#[trigger] rest[i]).2@.contains(id) by {
                assert(!teams[i].2@.contains(id));
            }
            assert(!teams[last].2@.contains(id));
        }
    }
}

proof fn lemma_enlisted(teams: Seq<(Id, String, Vec<Id>)>, id: Id)
    requires
        forall|i: int, j: int| 0 <= i < j < teams.len() ==> (#[trigger] teams[i]).0 != (#[trigger] teams[j]).0,
    ensures
        enlisted(Map::empty(), teams).contains_key(id) <==> exists|i: int|
            0 <= i < teams.len() && (#[trigger] teams[i]).0 == id,
        forall|i: int|
            0 <= i < teams.len() && (#[trigger] teams[i]).0 == id ==> enlisted(Map::empty(), teams)[id] == teams[i].2@,
    decreases teams.len(),
{
    if teams.len() > 0 {
        let rest = teams.drop_last();
        let last = teams.len() - 1;
        assert forall|i: int, j: int| 0 <= i < j < rest.len() implies (#[trigger] rest[i]).0 != (
        #[trigger] rest[j]).0 by {
            assert(teams[i].0 != teams[j].0);
        }
        lemma_enlisted(rest, id);
        if exists|i: int| 0 <= i < rest.len() && (#[trigger] rest[i]).0 == id {
            let i = choose|i: int| 0 <= i < rest.len() && (#[trigger] rest[i]).0 == id;
            assert(teams[i].0 == id);
        }
        if exists|i: int| 0 <= i < teams.len() && (#[trigger] teams[i]).0 == id {
            let i = choose|i: int| 0 <= i < teams.len() && (#[trigger] teams[i]).0 == id;
            if i < last {
                assert(rest[i].0 == id);
            }
        }
        assert(teams[last] == teams.last());
        assert forall|i: int| 0 <= i < teams.len() && (#[trigger] teams[i]).0 == id implies enlisted(
            Map::empty(),
            teams,
        )[id] == teams[i].2@ by {
            if i < last {
                assert(rest[i].0 == id);
                assert(teams[i].0 != teams[last].0);
            }
        }
    }
}

fn has_id(ids: &Vec<Id>, id: Id) -> (found: bool)
    ensures
        found == ids@.contains(id),
{
    let mut i: usize = 0;
    while i < ids.len()
        invariant
            i <= ids.len(),
            forall|j: int| 0 <= j < i ==> ids@[j] != id,
        decreases ids.len() - i,
    {
        if ids[i] == id {
            assert(ids@[i as int] == id);
            return true;
        }
        i = i + 1;
    }
    false
}

impl<N: NamingScheme> TeamManager<N> {
    /// The team of each player.
    pub closed spec fn player_teams(&self) -> Map<Id, Id> {
        self.player_to_team@
    }

    /// The players of each team.
    pub closed spec fn team_players(&self) -> Map<Id, Seq<Id>> {
        self.team_to_players@.map_values(|players: Vec<Id>| players@)
    }

    /// Whom the players chose; `None` where players have no say.
    pub closed spec fn choices(&self) -> Option<Map<Id, Vec<Id>>> {
        match self.preferences {
            Some(preferences) => Some(preferences@),
            None => None,
        }
    }

    /// The teams with their names, once they are formed.
    pub closed spec fn formed(&self) -> Option<Seq<(Id, String)>> {
        match self.teams {
            Some(teams) => Some(teams@),
            None => None,
        }
    }

    /// How many players have been added since the teams were formed.
    pub closed spec fn added(&self) -> nat {
        self.next_team_to_receive_player as nat
    }

    /// The number of players aimed at for each team.
    pub closed spec fn target(&self) -> nat {
        self.optimal_size as nat
    }

    /// How teams are named.
    pub closed spec fn style(&self) -> N {
        self.name_style
    }

    /// Whether players have no say.
    pub closed spec fn random(&self) -> bool {
        self.assign_random
    }

    /// There are teams or nobody is in one; every player is in exactly one place of exactly one team.
    pub open spec fn wf(&self) -> bool {
        &&& self.random() <==> self.choices() is None
        &&& self.player_teams().dom().finite()
        &&& self.added() <= self.player_teams().dom().len()
        &&& match self.formed() {
            None => {
                &&& self.player_teams() == Map::<Id, Id>::empty()
                &&& self.team_players() == Map::<Id, Seq<Id>>::empty()
            },
            Some(teams) => {
                &&& teams.len() > 0
                &&& forall|i: int, j: int|
                    0 <= i < j < teams.len() ==> (#[trigger] teams[i]).0 != (#[trigger] teams[j]).0
                &&& forall|i: int|
                    0 <= i < teams.len() ==> self.team_players().contains_key((#[trigger] teams[i]).0)
                &&& forall|team: Id| #[trigger]
                    self.team_players().contains_key(team) ==> exists|i: int|
                        0 <= i < teams.len() && (#[trigger] teams[i]).0 == team
                &&& forall|player: Id| #[trigger]
                    self.player_teams().contains_key(player) ==> {
                        &&& self.team_players().contains_key(self.player_teams()[player])
                        &&& self.team_players()[self.player_teams()[player]].contains(player)
                    }
                &&& forall|team: Id| #[trigger]
                    self.team_players().contains_key(team) ==> self.team_players()[team].no_duplicates()
                &&& forall|team: Id, player: Id|
                    self.team_players().contains_key(team) && #[trigger] self.team_players()[team].contains(player)
                        ==> self.player_teams().contains_key(player) && self.player_teams()[player] == team
            },
        }
    }

    fn team_at(&self, team: Id) -> (at: Option<usize>)
        requires
            self.formed() is Some,
        ensures
            match at {
                Some(at) => at < self.formed()->0.len() && self.formed()->0[at as int].0 == team,
                None => forall|i: int| 0 <= i < self.formed()->0.len() ==> (#[trigger] self.formed()->0[i]).0 != team,
            },
    {
        match &self.teams {
            None => None,
            Some(teams) => {
                let mut i: usize = 0;
                while i < teams.len()
                    invariant
                        i <= teams.len(),
                        self.formed() == Some(teams@),
                        forall|j: int| 0 <= j < i ==> (#[trigger] teams@[j]).0 != team,
                    decreases teams.len() - i,
                {
                    if teams[i].0 == team {
                        return Some(i);
                    }
                    i = i + 1;
                }
                None
            },
        }
    }

    /// Whether a team is in order: nobody is in it twice, and everyone in it is bound to it.
    spec fn team_in_order(&self, team: Id) -> bool {
        &&& self.team_players()[team].no_duplicates()
        &&& forall|player: Id| #[trigger]
            self.team_players()[team].contains(player) ==> self.player_teams().contains_key(player)
                && self.player_teams()[player] == team
    }

    fn is_team_in_order(&self, team: Id) -> (result: bool)
        requires
            self.team_players().contains_key(team),
        ensures
            result == self.team_in_order(team),
    {
        match self.team_to_players.get(team) {
            None => true,
            Some(players) => {
                let ghost listed = self.team_players()[team];
                assert(listed == players@);
                let mut i: usize = 0;
                while i < players.len()
                    invariant
                        i <= players.len(),
                        self.team_players().contains_key(team),
                        listed == players@,
                        listed == self.team_players()[team],
                        forall|a: int, b: int| 0 <= a < b < i ==> players@[a] != players@[b],
                        forall|a: int|
                            0 <= a < i ==> self.player_teams().contains_key(#[trigger] players@[a])
                                && self.player_teams()[players@[a]] == team,
                    decreases players.len() - i,
                {
                    let player = players[i];
                    assert(listed.contains(listed[i as int]));
                    match self.player_to_team.get(player) {
                        None => {
                            return false;
                        },
                        Some(other) => if *other != team {
                            return false;
                        },
                    }
                    let mut j: usize = 0;
                    while j < i
                        invariant
                            j <= i,
                            i < players.len(),
                            listed == players@,
                            player == players@[i as int],
                            listed == self.team_players()[team],
                            forall|a: int| 0 <= a < j ==> players@[a] != player,
                        decreases i - j,
                    {
                        if players[j] == player {
                            assert(listed[j as int] == listed[i as int]);
                            return false;
                        }
                        j = j + 1;
                    }
                    i = i + 1;
                }
                true
            },
        }
    }

    /// Whether all agrees.
    pub fn is_sound(&self) -> (sound: bool)
        ensures
            sound == self.wf(),
    {
        if self.assign_random != self.preferences.is_none() {
            return false;
        }
        if self.next_team_to_receive_player > self.player_to_team.len() {
            return false;
        }
        let teams = match &self.teams {
            None => {
                let sound = self.player_to_team.is_empty() && self.team_to_players.is_empty();
                proof {
                    assert(self.team_players().dom() =~= self.team_to_players@.dom());
                    if sound {
                        assert(self.player_teams() =~= Map::<Id, Id>::empty());
                        assert(self.team_players() =~= Map::<Id, Seq<Id>>::empty());
                    }
                }
                return sound;
            },
            Some(teams) => teams,
        };
        if teams.len() == 0 {
            return false;
        }
        let mut i: usize = 0;
        while i < teams.len()
            invariant
                i <= teams.len(),
                self.formed() == Some(teams@),
                forall|a: int, b: int| 0 <= a < b < teams.len() && a < i ==> (#[trigger] teams@[a]).0 != (#[trigger] teams@[b]).0,
                forall|a: int|
                    0 <= a < i ==> self.team_players().contains_key((#[trigger] teams@[a]).0) && self.team_in_order(
                        teams@[a].0,
                    ),
            decreases teams.len() - i,
        {
            let team = teams[i].0;
            assert(teams@[i as int].0 == team);
            if !self.team_to_players.contains_key(team) || !self.is_team_in_order(team) {
                assert(!self.wf());
                return false;
            }
            let mut j: usize = i + 1;
            while j < teams.len()
                invariant
                    i < j <= teams.len(),
                    self.formed() == Some(teams@),
                    team == teams@[i as int].0,
                    forall|b: int| i < b < j ==> (#[trigger] teams@[b]).0 != team,
                decreases teams.len() - j,
            {
                if teams[j].0 == team {
                    assert(teams@[i as int].0 == teams@[j as int].0);
                    return false;
                }
                j = j + 1;
            }
            i = i + 1;
        }
        let listed = self.team_to_players.keys();
        let mut k: usize = 0;
        while k < listed.len()
            invariant
                k <= listed.len(),
                self.formed() == Some(teams@),
                listed@.to_set() == self.team_players().dom(),
                forall|a: int|
                    0 <= a < k ==> exists|i: int| 0 <= i < teams@.len() && (#[trigger] teams@[i]).0 == #[trigger] listed@[a],
            decreases listed.len() - k,
        {
            assert(listed@.to_set().contains(listed@[k as int]));
            match self.team_at(listed[k]) {
                None => {
                    assert(self.team_players().contains_key(listed@[k as int]));
                    return false;
                },
                Some(at) => {
                    assert(teams@[at as int].0 == listed@[k as int]);
                },
            }
            k = k + 1;
        }
        let players = self.player_to_team.keys();
        let mut m: usize = 0;
        while m < players.len()
            invariant
                m <= players.len(),
                self.formed() == Some(teams@),
                players@.to_set() == self.player_teams().dom(),
                forall|a: int|
                    0 <= a < m ==> {
                        &&& self.team_players().contains_key(self.player_teams()[#[trigger] players@[a]])
                        &&& self.team_players()[self.player_teams()[players@[a]]].contains(players@[a])
                    },
            decreases players.len() - m,
        {
            let player = players[m];
            assert(players@.to_set().contains(player));
            assert(self.player_teams().contains_key(player));
            let found = match self.player_to_team.get(player) {
                None => false,
                Some(team) => match self.team_to_players.get(*team) {
                    None => false,
                    Some(members) => has_id(members, player),
                },
            };
            if !found {
                return false;
            }
            m = m + 1;
        }
        proof {
            assert forall|team: Id| #[trigger] self.team_players().contains_key(team) implies exists|i: int|
                0 <= i < teams@.len() && (#[trigger] teams@[i]).0 == team by {
                assert(listed@.to_set().contains(team));
                let a = choose|a: int| 0 <= a < listed@.len() && listed@[a] == team;
                assert(listed@[a] == team);
            }
            assert forall|team: Id| #[trigger] self.team_players().contains_key(team) implies self.team_in_order(team) by {
                let i = choose|i: int| 0 <= i < teams@.len() && (#[trigger] teams@[i]).0 == team;
                assert(self.team_in_order(teams@[i].0));
            }
            assert forall|player: Id| #[trigger] self.player_teams().contains_key(player) implies {
                &&& self.team_players().contains_key(self.player_teams()[player])
                &&& self.team_players()[self.player_teams()[player]].contains(player)
            } by {
                assert(players@.to_set().contains(player));
                let a = choose|a: int| 0 <= a < players@.len() && players@[a] == player;
                assert(players@[a] == player);
            }
            assert(self.wf());
        }
        true
    }

    /// Whether the two are set up alike.
    pub open spec fn same_setup(&self, other: &Self) -> bool {
        &&& self.target() == other.target()
        &&& self.random() == other.random()
        &&& self.style() == other.style()
        &&& self.choices() == other.choices()
    }

    /// A manager without teams.
    pub fn new(optimal_size: usize, assign_random: bool, name_style: N) -> (manager: Self)
        ensures
            manager.wf(),
            manager.target() == optimal_size,
            manager.random() == assign_random,
            manager.style() == name_style,
            manager.choices() == if assign_random {
                None
            } else {
                Some(Map::<Id, Vec<Id>>::empty())
            },
            manager.formed() is None,
            manager.added() == 0,
    {
        let manager = TeamManager {
            player_to_team: IdMap::new(),
            optimal_size,
            assign_random,
            name_style,
            preferences: if assign_random {
                None
            } else {
                Some(IdMap::new())
            },
            teams: None,
            next_team_to_receive_player: 0,
            team_to_players: IdMap::new(),
        };
        assert(manager.team_players() =~= Map::<Id, Seq<Id>>::empty());
        manager
    }

    /// The number of players aimed at for each team.
    pub fn target_size(&self) -> (size: usize)
        ensures
            size == self.target(),
    {
        self.optimal_size
    }

    /// Whether players have no say.
    pub fn is_random_assignments(&self) -> (random: bool)
        ensures
            random == self.random(),
    {
        self.assign_random
    }

    /// Whether `after` holds `teams` that `groups` of the players made up, and nothing else is new.
    pub open spec fn formed_as(
        &self,
        after: &Self,
        players: Seq<Id>,
        groups: Seq<Seq<Id>>,
        teams: Seq<(Id, String, Vec<Id>)>,
    ) -> bool {
        &&& is_grouping(self.choices(), players, groups)
        &&& rosters(teams) == balanced(groups, players.len(), self.target())
        &&& after.same_setup(self)
        &&& after.formed() == Some(listed(teams))
        &&& after.player_teams() == assigned(Map::empty(), teams)
        &&& after.team_players() == enlisted(Map::empty(), teams)
        &&& after.added() == self.added()
    }

    /// Whether forming the teams leads from here to `after`: nothing changes where they are formed, or
    /// where no name was found for one; else the players that can be reached are in teams with new names.
    pub open spec fn finalized(
        &self,
        after: Self,
        watchers: Watchers,
        watchers_after: Watchers,
        names: Names,
        names_after: Names,
        open: Set<Id>,
        profanity: Profanity,
        done: bool,
    ) -> bool {
        &&& watchers_after.ids() == watchers.ids()
        &&& watchers_after.away() == watchers.away()
        &&& watchers_after.capacity() == watchers.capacity()
        &&& self.formed() is Some ==> done && after == *self && watchers_after == watchers && names_after == names
        &&& self.formed() is None && done ==> exists|groups: Seq<Seq<Id>>, teams: Seq<(Id, String, Vec<Id>)>| {
            &&& #[trigger] self.formed_as(&after, watchers.reachable(ValueKind::Player, open), groups, teams)
            &&& teams_named(self.style(), names, names_after, teams, profanity)
            &&& watchers_after.values() == joined_teams(watchers.values(), teams)
        }
        &&& !done ==> {
            &&& after == *self
            &&& watchers_after == watchers
            &&& exists|some: Seq<(Id, String, Vec<Id>)>| #[trigger]
                teams_named(self.style(), names, names_after, some, profanity)
            &&& exists|team_id: Id| #[trigger] no_name_found(self.style(), names_after, team_id, profanity)
        }
    }

    /// Forms the teams out of the players that can be reached, once. Names are tried until each team
    /// has one; `false` tells that none was found in as many tries as there are numbers to count them.
    pub fn finalize(&mut self, watchers: &mut Watchers, names: &mut Names, tunnels: &Tunnels, profanity: Profanity) -> (done:
        bool)
        requires
            old(self).wf(),
            old(self).target() > 0,
            old(watchers).wf(),
            old(names).wf(),
        ensures
            final(self).wf(),
            final(watchers).wf(),
            final(names).wf(),
            old(self).finalized(
                *final(self),
                *old(watchers),
                *final(watchers),
                *old(names),
                *final(names),
                tunnels@,
                profanity,
                done,
            ),
    {
        if self.teams.is_some() {
            return true;
        }
        let players = Self::get_players(watchers, tunnels);
        let groups = self.create_preference_groups(&players);
        let ghost members_of = views(groups@);
        proof {
            groups_hold_the_players(self.choices(), players@, members_of);
        }
        let balanced_teams = self.balance_teams(&groups, players.len());
        let ghost made = views(balanced_teams@);
        match self.create_team_id_names(balanced_teams, names, profanity) {
            None => false,
            Some(teams) => {
                let list = self.assign_all_players_to_teams(&teams, watchers);
                self.teams = Some(list);
                proof {
                    crate::watcher::reachable_no_duplicates(*old(watchers), ValueKind::Player, tunnels@);
                    self.lemma_finalized(old(self), players@, members_of, teams@);
                    assert(old(self).formed_as(self, players@, members_of, teams@));
                }
                true
            },
        }
    }

    #[verifier::spinoff_prover]
    proof fn lemma_finalized(
        &self,
        before: &Self,
        players: Seq<Id>,
        groups: Seq<Seq<Id>>,
        teams: Seq<(Id, String, Vec<Id>)>,
    )
        requires
            before.wf(),
            before.formed() is None,
            before.target() > 0,
            players.no_duplicates(),
            before.formed_as(self, players, groups, teams),
            forall|i: int, j: int| 0 <= i < j < teams.len() ==> (#[trigger] teams[i]).0 != (#[trigger] teams[j]).0,
            self.player_teams().dom().finite(),
        ensures
            self.wf(),
    {
        let list = listed(teams);
        let optimal = before.optimal_size as nat;
        let made = rosters(teams);
        groups_hold_the_players(before.choices(), players, groups);
        if players.len() == 0 {
            lemma_no_players(groups, optimal);
        } else {
            teams_hold_everyone_once(groups, players.len(), optimal);
        }
        assert(before.player_teams().dom() =~= Set::<Id>::empty());
        assert forall|id: Id| #[trigger] members(made).count(id) <= 1 by {
            if players.len() > 0 {
                assert(members(groups).count(id) <= 1);
            }
        }
        lemma_members_are_apart(made);
        assert(made.len() == teams.len());
        assert forall|id: Id, i: int, j: int|
            0 <= i < teams.len() && 0 <= j < teams.len() && #[trigger] teams[i].2@.contains(id)
                && #[trigger] teams[j].2@.contains(id) implies i == j by {
            assert(made[i].contains(id) && made[j].contains(id));
        }
        assert forall|i: int, j: int| 0 <= i < j < list.len() implies (#[trigger] list[i]).0 != (
        #[trigger] list[j]).0 by {
            assert(teams[i].0 != teams[j].0);
        }
        assert forall|i: int| 0 <= i < list.len() implies self.team_players().contains_key((#[trigger] list[i]).0) by {
            lemma_enlisted(teams, teams[i].0);
            assert(teams[i].0 == list[i].0);
        }
        assert forall|team: Id| #[trigger] self.team_players().contains_key(team) implies exists|i: int|
            0 <= i < list.len() && (#[trigger] list[i]).0 == team by {
            lemma_enlisted(teams, team);
            let i = choose|i: int| 0 <= i < teams.len() && (#[trigger] teams[i]).0 == team;
            assert(list[i].0 == team);
        }
        assert forall|player: Id| #[trigger] self.player_teams().contains_key(player) implies {
            &&& self.team_players().contains_key(self.player_teams()[player])
            &&& self.team_players()[self.player_teams()[player]].contains(player)
        } by {
            lemma_assigned(Map::empty(), teams, player);
            let i = choose|i: int| 0 <= i < teams.len() && (#[trigger] teams[i]).2@.contains(player);
            lemma_enlisted(teams, teams[i].0);
        }
        assert forall|team: Id| #[trigger] self.team_players().contains_key(team) implies self.team_players()[team].no_duplicates() by {
            lemma_enlisted(teams, team);
            let i = choose|i: int| 0 <= i < teams.len() && (#[trigger] teams[i]).0 == team;
            assert(made[i].no_duplicates());
        }
        assert forall|team: Id, player: Id|
            self.team_players().contains_key(team) && #[trigger] self.team_players()[team].contains(player) implies
            self.player_teams().contains_key(player) && self.player_teams()[player] == team by {
            lemma_enlisted(teams, team);
            let i = choose|i: int| 0 <= i < teams.len() && (#[trigger] teams[i]).0 == team;
            assert(teams[i].2@.contains(player));
            lemma_assigned(Map::empty(), teams, player);
        }
        assert(self.formed() == Some(list));
        assert(list.len() == made.len() && made.len() > 0);
        assert(self.added() == 0);
        assert(self.random() <==> self.choices() is None);
    }

    fn get_players(watchers: &Watchers, tunnels: &Tunnels) -> (players: Vec<Id>)
        requires
            watchers.wf(),
        ensures
            players@ == watchers.reachable(ValueKind::Player, tunnels@),
    {
        watchers.specific_vec(ValueKind::Player, tunnels)
    }

    /// Whether `a` chose `b`.
    fn has_chosen(&self, a: Id, b: Id) -> (result: bool)
        ensures
            result == chose(self.choices(), a, b),
    {
        match &self.preferences {
            None => false,
            Some(preferences) => match preferences.get(a) {
                None => false,
                Some(chosen) => {
                    let mut i: usize = 0;
                    while i < chosen.len()
                        invariant
                            i <= chosen.len(),
                            self.choices() is Some,
                            self.choices()->0.contains_key(a),
                            *chosen == self.choices()->0[a],
                            forall|j: int| 0 <= j < i ==> chosen[j] != b,
                        decreases chosen.len() - i,
                    {
                        if chosen[i] == b {
                            assert(chosen@[i as int] == b);
                            return true;
                        }
                        i = i + 1;
                    }
                    false
                },
            },
        }
    }

    /// The smallest of a player and those the player is in mutual choice with.
    fn leader_of(&self, player: Id) -> (found: Id)
        ensures
            found == leader(self.choices(), player),
    {
        let mut smallest = player;
        match &self.preferences {
            None => {},
            Some(preferences) => match preferences.get(player) {
                None => {},
                Some(chosen) => {
                    let mut i: usize = 0;
                    while i < chosen.len()
                        invariant
                            i <= chosen.len(),
                            self.choices() is Some,
                            self.choices()->0.contains_key(player),
                            *chosen == self.choices()->0[player],
                            smallest == player || mutual(self.choices(), player, smallest),
                            smallest.0 <= player.0,
                            forall|j: int|
                                0 <= j < i && chose(self.choices(), #[trigger] chosen[j], player) ==> smallest.0
                                    <= chosen[j].0,
                        decreases chosen.len() - i,
                    {
                        let other = chosen[i];
                        assert(chosen@.contains(other));
                        if self.has_chosen(other, player) && other.0 < smallest.0 {
                            smallest = other;
                        }
                        i = i + 1;
                    }
                    assert forall|other: Id| #[trigger] mutual(self.choices(), player, other) implies smallest.0
                        <= other.0 by {
                        let j = choose|j: int| 0 <= j < chosen@.len() && chosen@[j] == other;
                        assert(chosen[j] == other);
                    }
                },
            },
        }
        proof {
            leader_is_unique(self.choices(), player, smallest);
        }
        smallest
    }

    /// The players in groups of those who share a leader, in random order, larger groups first.
    pub fn create_preference_groups(&self, players: &Vec<Id>) -> (groups: Vec<Vec<Id>>)
        ensures
            is_grouping(self.choices(), players@, views(groups@)),
    {
        let leaders = self.leaders_of(players);
        let keys = sorted_distinct(&leaders);
        let mut groups: Vec<Vec<Id>> = Vec::new();
        let ghost mut order: Seq<Id> = Seq::empty();
        let mut n: usize = 0;
        while n < keys.len()
            invariant
                n <= keys.len(),
                leaders.len() == players.len(),
                forall|i: int| 0 <= i < players.len() ==> leaders[i] == leader(self.choices(), #[trigger] players[i]),
                ascending(keys@),
                keys@.to_set() == leaders@.to_set(),
                order.len() == groups.len(),
                forall|key: Id| #[trigger] order.contains(key) <==> keys@.take(n as int).contains(key),
                order.no_duplicates(),
                forall|i: int|
                    0 <= i < groups.len() ==> {
                        &&& (#[trigger] groups[i])@.to_multiset() == led_by(
                            self.choices(),
                            players@,
                            order[i],
                        ).to_multiset()
                        &&& was_shuffled(led_by(self.choices(), players@, order[i]), groups[i]@)
                        &&& groups[i].len() > 0
                    },
                forall|i: int, j: int|
                    0 <= i < j < groups.len() ==> (#[trigger] groups[i]).len() > (#[trigger] groups[j]).len() || (
                    groups[i].len() == groups[j].len() && order[i].0 > order[j].0),
            decreases keys.len() - n,
        {
            let key = keys[n];
            let selected = self.select(players, &leaders, key);
            let ghost led = selected@;
            let group = in_random_order(selected);
            proof {
                group@.to_multiset_ensures();
                led.to_multiset_ensures();
                assert(keys@.to_set().contains(key));
                let i = choose|i: int| 0 <= i < leaders@.len() && leaders@[i] == key;
                assert(leader(self.choices(), players[i]) == key);
                let pred = |player: Id| leader(self.choices(), player) == key;
                assert(pred(players@[i]));
                players@.lemma_filter_contains(pred, i);
                assert(led.contains(players@[i]));
                assert forall|i: int| 0 <= i < order.len() implies (#[trigger] order[i]).0 < key.0 by {
                    assert(order.contains(order[i]));
                    let prefix = keys@.take(n as int);
                    let j = choose|j: int| 0 <= j < prefix.len() && prefix[j] == order[i];
                    assert(keys[j].0 < keys[n as int].0);
                }
            }
            let mut at: usize = 0;
            while at < groups.len() && groups[at].len() > group.len()
                invariant
                    at <= groups.len(),
                    forall|i: int| 0 <= i < at ==> (#[trigger] groups[i]).len() > group.len(),
                ensures
                    at <= groups.len(),
                    forall|i: int| 0 <= i < at ==> (#[trigger] groups[i]).len() > group.len(),
                    at < groups.len() ==> groups[at as int].len() <= group.len(),
                decreases groups.len() - at,
            {
                at = at + 1;
            }
            let ghost groups_before = groups@;
            let ghost order_before = order;
            let ghost new_group = group;
            groups.insert(at, group);
            proof {
                order = order.insert(at as int, key);
                assert forall|other: Id| #[trigger] order.contains(other) <==> keys@.take(n + 1).contains(other) by {
                    lemma_insert_contains(order_before, at as int, key, other);
                    lemma_take_contains(keys@, n as int, other);
                    assert(order_before.contains(other) <==> keys@.take(n as int).contains(other));
                }
                assert(!order_before.contains(key)) by {
                    if order_before.contains(key) {
                        let i = choose|i: int| 0 <= i < order_before.len() && order_before[i] == key;
                        assert(order_before[i].0 < key.0);
                    }
                }
                assert forall|i: int, j: int| 0 <= i < j < order.len() implies order[i] != order[j] by {
                    if i < at as int {
                        assert(order_before.contains(order_before[i]));
                    }
                    if j > at as int {
                        assert(order_before.contains(order_before[j - 1]));
                    }
                }
                assert forall|i: int| 0 <= i < groups.len() implies {
                    &&& (#[trigger] groups[i])@.to_multiset() == led_by(
                        self.choices(),
                        players@,
                        order[i],
                    ).to_multiset()
                    &&& was_shuffled(led_by(self.choices(), players@, order[i]), groups[i]@)
                    &&& groups[i].len() > 0
                } by {
                    if i < at {
                        assert(groups[i] == groups_before[i]);
                    } else if i > at {
                        assert(groups[i] == groups_before[i - 1]);
                    }
                }
                assert forall|i: int, j: int| 0 <= i < j < groups.len() implies (#[trigger] groups[i]).len() > (
                #[trigger] groups[j]).len() || (groups[i].len() == groups[j].len() && order[i].0 > order[j].0) by {
                    let a = if i < at { i } else { i - 1 };
                    let b = if j < at { j } else { j - 1 };
                    if i == at {
                        assert(groups[j] == groups_before[b]);
                        if at < b {
                            assert(groups_before[at as int].len() >= groups_before[b].len());
                        }
                    } else if j == at {
                        assert(groups[i] == groups_before[i]);
                    } else {
                        assert(groups[i] == groups_before[a] && groups[j] == groups_before[b]);
                    }
                }
            }
            n = n + 1;
        }
        if groups.len() == 0 {
            let ghost nobody = players@;
            groups.push(Vec::new());
            proof {
                if nobody.len() > 0 {
                    assert(leaders@.to_set().contains(leaders@[0]));
                    let i = choose|i: int| 0 <= i < keys@.len() && keys@[i] == leaders@[0];
                    assert(keys@.take(n as int)[i] == leaders@[0]);
                    assert(order.contains(leaders@[0]));
                }
                assert(views(groups@) =~= seq![Seq::<Id>::empty()]);
            }
        } else {
            proof {
                if players@.len() == 0 {
                    assert(order.contains(order[0]));
                    let prefix = keys@.take(n as int);
                    let i = choose|i: int| 0 <= i < prefix.len() && prefix[i] == order[0];
                    assert(keys@.to_set().contains(keys@[i]));
                    assert(leaders@.to_set().contains(keys@[i]));
                }
                assert forall|i: int| 0 <= i < players.len() implies order.contains(
                    leader(self.choices(), #[trigger] players@[i]),
                ) by {
                    assert(leaders@[i] == leader(self.choices(), players[i]));
                    assert(leaders@.to_set().contains(leaders@[i]));
                    let j = choose|j: int| 0 <= j < keys@.len() && keys@[j] == leaders@[i];
                    assert(keys@.take(n as int)[j] == leaders@[i]);
                }
                let made = views(groups@);
                assert forall|i: int| 0 <= i < made.len() implies {
                    &&& (#[trigger] made[i]).to_multiset() == led_by(
                        self.choices(),
                        players@,
                        order[i],
                    ).to_multiset()
                    &&& made[i].len() > 0
                } by {
                    assert(made[i] == groups[i]@);
                }
                assert forall|i: int, j: int| 0 <= i < j < made.len() implies (#[trigger] made[i]).len() > (
                #[trigger] made[j]).len() || (made[i].len() == made[j].len() && order[i].0 > order[j].0) by {
                    assert(made[i] == groups[i]@ && made[j] == groups[j]@);
                }
                assert(grouped_by(self.choices(), players@, made, order));
            }
        }
        groups
    }

    fn leaders_of(&self, players: &Vec<Id>) -> (leaders: Vec<Id>)
        ensures
            leaders.len() == players.len(),
            forall|i: int| 0 <= i < players.len() ==> leaders[i] == leader(self.choices(), #[trigger] players[i]),
    {
        let mut leaders: Vec<Id> = Vec::new();
        let mut i: usize = 0;
        while i < players.len()
            invariant
                i <= players.len(),
                leaders.len() == i,
                forall|j: int| 0 <= j < i ==> leaders[j] == leader(self.choices(), #[trigger] players[j]),
            decreases players.len() - i,
        {
            leaders.push(self.leader_of(players[i]));
            i = i + 1;
        }
        leaders
    }

    fn select(&self, players: &Vec<Id>, leaders: &Vec<Id>, key: Id) -> (group: Vec<Id>)
        requires
            leaders.len() == players.len(),
            forall|i: int| 0 <= i < players.len() ==> leaders[i] == leader(self.choices(), #[trigger] players[i]),
        ensures
            group@ == led_by(self.choices(), players@, key),
    {
        let ghost pred = |player: Id| leader(self.choices(), player) == key;
        let mut group: Vec<Id> = Vec::new();
        let mut i: usize = 0;
        while i < players.len()
            invariant
                i <= players.len(),
                leaders.len() == players.len(),
                forall|i: int| 0 <= i < players.len() ==> leaders[i] == leader(self.choices(), #[trigger] players[i]),
                pred == (|player: Id| leader(self.choices(), player) == key),
                group@ == players@.take(i as int).filter(pred),
            decreases players.len() - i,
        {
            proof {
                lemma_filter_take(players@, pred, i as int);
                assert(leaders[i as int] == leader(self.choices(), players[i as int]));
            }
            if leaders[i] == key {
                group.push(players[i]);
            }
            i = i + 1;
        }
        assert(players@.take(i as int) =~= players@);
        group
    }

    /// The teams that the groups make up.
    pub fn balance_teams(&self, teams: &Vec<Vec<Id>>, players_count: usize) -> (result: Vec<Vec<Id>>)
        requires
            self.target() > 0,
            teams.len() == players_count ==> teams.len() > 0,
        ensures
            views(result@) == balanced(views(teams@), players_count as nat, self.target()),
    {
        if teams.len() == players_count {
            self.redistribute_single_player_teams(teams)
        } else {
            self.merge_teams_optimally(teams)
        }
    }

    /// The groups dealt out to as few teams as hold them, as evenly as possible.
    pub fn redistribute_single_player_teams(&self, teams: &Vec<Vec<Id>>) -> (result: Vec<Vec<Id>>)
        requires
            self.target() > 0,
            teams.len() > 0,
        ensures
            views(result@) == redistributed(views(teams@), self.target()),
    {
        let count: usize = teams.len();
        let ghost groups = views(teams@);
        let ghost optimal = self.optimal_size as nat;
        let ghost needed = teams_needed(count as nat, optimal);
        proof {
            lemma_team_starts(count as nat, optimal);
        }
        let total_teams: usize = if count % self.optimal_size > 0 {
            count / self.optimal_size + 1
        } else {
            count / self.optimal_size
        };
        let remainder: usize = count % total_teams;
        let base_size: usize = count / total_teams;
        let small_team_count: usize = total_teams - remainder;
        let mut result: Vec<Vec<Id>> = Vec::new();
        let mut start: usize = 0;
        while result.len() < total_teams
            invariant
                result.len() <= total_teams,
                total_teams == needed,
                count == teams.len(),
                groups == views(teams@),
                optimal == self.optimal_size,
                optimal > 0,
                count > 0,
                needed == teams_needed(count as nat, optimal),
                remainder == count % total_teams,
                base_size == count / total_teams,
                small_team_count == total_teams - remainder,
                start == team_start(count as nat, needed, result.len() as int),
                views(result@) == redistributed(groups, optimal).take(result.len() as int),
            decreases total_teams - result.len(),
        {
            proof {
                lemma_team_starts(count as nat, optimal);
                let i = result.len() as int;
                assert(team_start(count as nat, needed, i + 1) <= count);
            }
            let size: usize = if result.len() < small_team_count {
                base_size
            } else {
                base_size + 1
            };
            let ghost i = result.len() as int;
            assert(start + size == team_start(count as nat, needed, i + 1));
            let mut team: Vec<Id> = Vec::new();
            let mut j: usize = start;
            assert(flat(groups.subrange(start as int, start as int)) =~= Seq::<Id>::empty());
            while j < start + size
                invariant
                    start <= j <= start + size,
                    start + size <= count,
                    count == teams.len(),
                    groups == views(teams@),
                    team@ == flat(groups.subrange(start as int, j as int)),
                decreases start + size - j,
            {
                proof {
                    let part = groups.subrange(start as int, j + 1);
                    assert(part.drop_last() =~= groups.subrange(start as int, j as int));
                    assert(part.last() == teams[j as int]@);
                }
                team = concatenated(&team, &teams[j]);
                j = j + 1;
            }
            let ghost before = result@;
            result.push(team);
            start = start + size;
            assert(views(result@) =~= redistributed(groups, optimal).take(i + 1)) by {
                assert(views(result@) =~= views(before).push(team@));
            }
        }
        assert(redistributed(groups, optimal).take(result.len() as int) =~= redistributed(groups, optimal));
        result
    }

    /// The groups put together as they fit.
    pub fn merge_teams_optimally(&self, teams: &Vec<Vec<Id>>) -> (result: Vec<Vec<Id>>)
        ensures
            views(result@) == consolidated(merged(views(teams@), self.target())),
    {
        let ghost groups = views(teams@);
        let ghost optimal = self.optimal_size as nat;
        let mut sorted_teams = PreferenceGroups::new();
        let mut i: usize = 0;
        while i < teams.len()
            invariant
                i <= teams.len(),
                groups == views(teams@),
                optimal == self.optimal_size,
                sorted_teams@ == merged(groups.take(i as int), optimal),
            decreases teams.len() - i,
        {
            let team = &teams[i];
            let available_space: usize = self.optimal_size.saturating_sub(team.len());
            let count: usize = sorted_teams.count_fitting(available_space);
            assert(available_space == room(optimal, team@.len()));
            assert(groups.take(i + 1).drop_last() =~= groups.take(i as int));
            assert(groups.take(i + 1).last() == team@);
            if count > 0 {
                let compatible_team = sorted_teams.remove(count - 1);
                sorted_teams.insert(concatenated(team, &compatible_team));
            } else {
                let ghost empty = Seq::<Id>::empty();
                assert(empty + team@ =~= team@);
                sorted_teams.insert(concatenated(&Vec::new(), team));
            }
            i = i + 1;
        }
        assert(groups.take(i as int) =~= groups);
        Self::consolidate_single_member_teams(sorted_teams)
    }

    /// The groups with the first one, where it is a single player and not alone, joined to the second.
    pub fn consolidate_single_member_teams(teams: PreferenceGroups) -> (result: Vec<Vec<Id>>)
        ensures
            views(result@) == consolidated(teams@),
    {
        let mut teams = teams;
        if teams.len() >= 2 && teams.size(0) == 1 {
            let ghost before = teams@;
            let smallest = teams.remove(0);
            let second_smallest = teams.remove(0);
            assert(teams@ =~= before.skip(2));
            teams.insert(concatenated(&smallest, &second_smallest));
        }
        teams.into_vec()
    }

    /// Gives every team an identifier and a name that nobody has.
    pub fn create_team_id_names(&self, teams: Vec<Vec<Id>>, names: &mut Names, profanity: Profanity) -> (result:
        Option<Vec<(Id, String, Vec<Id>)>>)
        requires
            old(names).wf(),
        ensures
            final(names).wf(),
            match result {
                Some(named) => {
                    &&& rosters(named@) == views(teams@)
                    &&& teams_named(self.style(), *old(names), *final(names), named@, profanity)
                },
                None => {
                    &&& exists|some: Seq<(Id, String, Vec<Id>)>| #[trigger]
                        teams_named(self.style(), *old(names), *final(names), some, profanity) && some.len()
                            < teams@.len()
                    &&& exists|team_id: Id| #[trigger]
                        no_name_found(self.style(), *final(names), team_id, profanity)
                },
            },
    {
        let ghost all = views(teams@);
        let mut named: Vec<(Id, String, Vec<Id>)> = Vec::new();
        assert(rosters(named@) =~= all.take(0));
        for players in iter: teams
            invariant
                iter.seq() == teams@,
                all == views(teams@),
                old(names).wf(),
                names.wf(),
                named.len() == iter.index(),
                rosters(named@) == all.take(iter.index() as int),
                teams_named(self.style(), *old(names), *names, named@, profanity),
        {
            let ghost names_before = *names;
            let ghost named_before = named@;
            let team_id = Id::new();
            match self.generate_unique_team_name(team_id, names, profanity) {
                None => {
                    assert(teams_named(self.style(), *old(names), *names, named@, profanity));
                    return None;
                },
                Some(team_name) => {
                    named.push((team_id, team_name, players));
                    proof {
                        lemma_accepted_before(self.style(), *old(names), names_before, team_id, team_name@, profanity);
                        assert(rosters(named@) =~= all.take(iter.index() + 1));
                        assert forall|i: int| 0 <= i < named.len() implies {
                            &&& is_drawn(self.style(), *old(names), (#[trigger] named[i]).0, named[i].1@, profanity)
                            &&& named[i].0.was_drawn()
                            &&& !old(names)@.contains_key(named[i].0)
                            &&& names@.contains_key(named[i].0)
                            &&& names@[named[i].0]@ == named[i].1@
                        } by {
                            if i < named_before.len() {
                                assert(named[i] == named_before[i]);
                                assert(names_before@.contains_key(named[i].0));
                            }
                        }
                        assert forall|i: int, j: int| 0 <= i < j < named.len() implies (#[trigger] named[i]).0 != (
                        #[trigger] named[j]).0 by {
                            assert(named[i] == named_before[i]);
                            assert(names_before@.contains_key(named[i].0));
                            if j < named_before.len() {
                                assert(named[j] == named_before[j]);
                            }
                        }
                        assert forall|id: Id| #[trigger] names@.contains_key(id) implies old(names)@.contains_key(id)
                            || exists|i: int| 0 <= i < named.len() && (#[trigger] named[i]).0 == id by {
                            if id == team_id {
                                assert(named[named.len() - 1].0 == id);
                            } else {
                                assert(names_before@.contains_key(id));
                                if !old(names)@.contains_key(id) {
                                    let i = choose|i: int|
                                        0 <= i < named_before.len() && (#[trigger] named_before[i]).0 == id;
                                    assert(named[i].0 == id);
                                }
                            }
                        }
                        assert forall|id: Id| #[trigger] old(names)@.contains_key(id) implies names@.contains_key(id)
                            && names@[id] == old(names)@[id] by {
                            assert(names_before@.contains_key(id));
                        }
                    }
                },
            }
        }
        assert(all.take(all.len() as int) =~= all);
        Some(named)
    }

    /// Draws names for groups until one is free, and gives it to the team. `None` where none was found in as many
    /// tries as there are numbers to count them.
    pub fn generate_unique_team_name(&self, team_id: Id, names: &mut Names, profanity: Profanity) -> (result: Option<
        String,
    >)
        requires
            old(names).wf(),
        ensures
            final(names).wf(),
            match result {
                Some(name) => {
                    &&& is_drawn(self.style(), *old(names), team_id, name@, profanity)
                    &&& old(names).named(final(names), team_id, name@)
                },
                None => {
                    &&& *final(names) == *old(names)
                    &&& no_name_found(self.style(), *old(names), team_id, profanity)
                },
            },
    {
        let ghost mut asked: Seq<String> = Seq::empty();
        let mut attempts: u64 = u64::MAX;
        while attempts > 0
            invariant
                old(names).wf(),
                *names == *old(names),
                asked.len() == u64::MAX - attempts,
                forall|i: int|
                    0 <= i < asked.len() ==> draws(self.style(), #[trigger] asked[i]) && !accepts(
                        *old(names),
                        team_id,
                        asked[i]@,
                        profanity,
                    ),
            decreases attempts,
        {
            attempts = attempts - 1;
            let name = self.name_style.get_plural_name();
            assert(draws(self.style(), name));
            match names.set_name(team_id, name.as_str(), profanity) {
                Ok(unique_name) => {
                    assert(accepts(*old(names), team_id, name@, profanity));
                    return Some(unique_name.to_owned());
                },
                Err(_) => {
                    proof {
                        asked = asked.push(name);
                    }
                },
            }
        }
        assert(tried_in_vain(self.style(), *old(names), team_id, profanity, asked));
        None
    }

    /// Puts the players into the teams.
    pub fn assign_all_players_to_teams(&mut self, teams: &Vec<(Id, String, Vec<Id>)>, watchers: &mut Watchers) -> (list:
        Vec<(Id, String)>)
        requires
            old(watchers).wf(),
        ensures
            list@ == listed(teams@),
            final(self).same_setup(old(self)),
            final(self).formed() == old(self).formed(),
            final(self).added() == old(self).added(),
            final(self).player_teams() == assigned(old(self).player_teams(), teams@),
            final(self).team_players() == enlisted(old(self).team_players(), teams@),
            final(watchers).wf(),
            final(watchers).ids() == old(watchers).ids(),
            final(watchers).away() == old(watchers).away(),
            final(watchers).capacity() == old(watchers).capacity(),
            final(watchers).values() == joined_teams(old(watchers).values(), teams@),
            final(self).player_teams().dom().finite(),
    {
        let mut list: Vec<(Id, String)> = Vec::new();
        let mut i: usize = 0;
        while i < teams.len()
            invariant
                i <= teams.len(),
                list@ == listed(teams@.take(i as int)),
                self.same_setup(old(self)),
                self.formed() == old(self).formed(),
                self.added() == old(self).added(),
                self.player_teams() == assigned(old(self).player_teams(), teams@.take(i as int)),
                self.team_players() == enlisted(old(self).team_players(), teams@.take(i as int)),
                watchers.wf(),
                watchers.ids() == old(watchers).ids(),
                watchers.away() == old(watchers).away(),
                watchers.capacity() == old(watchers).capacity(),
                watchers.values() == joined_teams(old(watchers).values(), teams@.take(i as int)),
            decreases teams.len() - i,
        {
            let team = &teams[i];
            self.assign_players_to_team(&team.2, team.0, &team.1, watchers);
            list.push((team.0, team.1.clone()));
            proof {
                assert(teams@.take(i + 1).drop_last() =~= teams@.take(i as int));
                assert(list@ =~= listed(teams@.take(i + 1)));
            }
            i = i + 1;
        }
        assert(teams@.take(i as int) =~= teams@);
        let _ = self.player_to_team.len();
        list
    }

    /// Puts players into one team, as the only ones there.
    pub fn assign_players_to_team(&mut self, players: &Vec<Id>, team_id: Id, team_name: &String, watchers: &mut Watchers)
        requires
            old(watchers).wf(),
        ensures
            final(self).same_setup(old(self)),
            final(self).formed() == old(self).formed(),
            final(self).added() == old(self).added(),
            final(self).player_teams() == bound(old(self).player_teams(), players@, team_id),
            final(self).team_players() == old(self).team_players().insert(team_id, players@),
            final(watchers).wf(),
            final(watchers).ids() == old(watchers).ids(),
            final(watchers).away() == old(watchers).away(),
            final(watchers).capacity() == old(watchers).capacity(),
            final(watchers).values() == joined_team(old(watchers).values(), players@, *team_name, team_id),
    {
        let mut copy: Vec<Id> = Vec::new();
        let mut i: usize = 0;
        assert(self.player_teams() =~= bound(old(self).player_teams(), players@.take(0), team_id));
        assert(watchers.values() =~= joined_team(old(watchers).values(), players@.take(0), *team_name, team_id));
        while i < players.len()
            invariant
                i <= players.len(),
                copy@ == players@.take(i as int),
                self.same_setup(old(self)),
                self.formed() == old(self).formed(),
                self.added() == old(self).added(),
                self.team_players() == old(self).team_players(),
                self.player_teams() == bound(old(self).player_teams(), players@.take(i as int), team_id),
                watchers.wf(),
                watchers.ids() == old(watchers).ids(),
                watchers.away() == old(watchers).away(),
                watchers.capacity() == old(watchers).capacity(),
                watchers.values() == joined_team(
                    old(watchers).values(),
                    players@.take(i as int),
                    *team_name,
                    team_id,
                ),
            decreases players.len() - i,
        {
            let player = players[i];
            self.player_to_team.insert(player, team_id);
            watchers.update_watcher_value(
                player,
                Value::Player(PlayerValue::Team { team_name: team_name.clone(), team_id }),
            );
            copy.push(player);
            proof {
                assert forall|other: Id| #[trigger] players@.take(i + 1).contains(other) <==> players@.take(
                    i as int,
                ).contains(other) || other == player by {
                    lemma_take_contains(players@, i as int, other);
                }
                assert(copy@ =~= players@.take(i + 1));
                assert(self.player_teams() =~= bound(old(self).player_teams(), players@.take(i + 1), team_id));
                assert(watchers.values() =~= joined_team(
                    old(watchers).values(),
                    players@.take(i + 1),
                    *team_name,
                    team_id,
                ));
            }
            i = i + 1;
        }
        assert(players@.take(i as int) =~= players@);
        self.team_to_players.insert(team_id, copy);
        assert(self.team_players() =~= old(self).team_players().insert(team_id, players@));
    }
}

impl<N: NamingScheme> TeamManager<N> {
    /// Whether `read` names each team once, with its players.
    pub open spec fn is_assignments(&self, names: Names, read: Seq<(String, Vec<String>)>) -> bool {
        exists|order: Seq<Id>| {
            &&& #[trigger] order.no_duplicates()
            &&& order.to_set() == self.team_players().dom()
            &&& assignments_read(self.team_players(), names, order, read)
        }
    }

    /// Who plays with whom: the name of each team and the names of its players, in no particular
    /// order of the teams.
    pub fn team_assignments(&self, names: &Names) -> (result: Vec<(String, Vec<String>)>)
        ensures
            self.is_assignments(*names, result@),
    {
        let order = self.team_to_players.keys();
        let mut result: Vec<(String, Vec<String>)> = Vec::new();
        let mut i: usize = 0;
        while i < order.len()
            invariant
                i <= order.len(),
                order@.to_set() == self.team_to_players@.dom(),
                assignments_read(self.team_players(), *names, order@.take(i as int), result@),
            decreases order.len() - i,
        {
            let team_id = order[i];
            proof {
                assert(order@.to_set().contains(order@[i as int]));
            }
            match self.team_to_players.get(team_id) {
                Some(players) => {
                    let mut player_names: Vec<String> = Vec::new();
                    let mut j: usize = 0;
                    while j < players.len()
                        invariant
                            j <= players.len(),
                            names_read(*names, players@.take(j as int), player_names@),
                        decreases players.len() - j,
                    {
                        player_names.push(names.get_name_or_unknown(&players[j]).to_owned());
                        j = j + 1;
                    }
                    assert(players@.take(j as int) =~= players@);
                    let ghost before = result@;
                    result.push((names.get_name_or_unknown(&team_id).to_owned(), player_names));
                    assert forall|k: int| 0 <= k < result.len() implies {
                        let team = order@.take(i + 1)[k];
                        &&& (#[trigger] result[k]).0@ == names.name_or_unknown(team)
                        &&& names_read(*names, self.team_players()[team], result[k].1@)
                    } by {
                        if k < before.len() {
                            assert(result[k] == before[k]);
                            assert(order@.take(i as int)[k] == order@.take(i + 1)[k]);
                        }
                    }
                },
                None => {},
            }
            i = i + 1;
        }
        assert(order@.take(i as int) =~= order@);
        assert(self.team_players().dom() =~= self.team_to_players@.dom());
        assert(order@.no_duplicates());
        result
    }

    /// Whether these are the names of the teams, the first ones of them, once they are formed.
    pub open spec fn shows_names(&self, names: Option<TruncatedVec<&str>>) -> bool {
        match self.formed() {
            None => names is None,
            Some(teams) => {
                &&& names is Some
                &&& names->0.total() == teams.len()
                &&& names->0.kept().len() == if teams.len() < SHOWN_TEAMS { teams.len() } else { SHOWN_TEAMS as nat }
                &&& forall|i: int|
                    0 <= i < names->0.kept().len() ==> (#[trigger] names->0.kept()[i])@ == teams[i].1@
            },
        }
    }

    /// The names of the teams, the first ones of them, once they are formed.
    pub fn team_names(&self) -> (names: Option<TruncatedVec<&str>>)
        ensures
            self.shows_names(names),
    {
        match &self.teams {
            None => None,
            Some(teams) => {
                let mut names: Vec<&str> = Vec::new();
                let mut i: usize = 0;
                while i < teams.len()
                    invariant
                        i <= teams.len(),
                        names.len() == i,
                        forall|j: int| 0 <= j < i ==> (#[trigger] names[j])@ == teams[j].1@,
                    decreases teams.len() - i,
                {
                    names.push(teams[i].1.as_str());
                    i = i + 1;
                }
                Some(TruncatedVec::new(names.into_iter(), SHOWN_TEAMS, teams.len()))
            },
        }
    }

    /// The team of a player.
    pub open spec fn team_of(&self, player_id: Id) -> Option<Id> {
        if self.player_teams().contains_key(player_id) {
            Some(self.player_teams()[player_id])
        } else {
            None
        }
    }

    /// The team of a player.
    pub fn get_team(&self, player_id: Id) -> (team: Option<Id>)
        ensures
            team == self.team_of(player_id),
    {
        match self.player_to_team.get(player_id) {
            Some(team) => Some(*team),
            None => None,
        }
    }

    /// Notes whom a player chose, where players have a say.
    pub fn set_preferences(&mut self, player_id: Id, preferences: Vec<Id>)
        requires
            old(self).wf(),
        ensures
            final(self).wf(),
            final(self).choices() == match old(self).choices() {
                Some(choices) => Some(choices.insert(player_id, preferences)),
                None => None,
            },
            final(self).target() == old(self).target(),
            final(self).random() == old(self).random(),
            final(self).style() == old(self).style(),
            final(self).formed() == old(self).formed(),
            final(self).added() == old(self).added(),
            final(self).player_teams() == old(self).player_teams(),
            final(self).team_players() == old(self).team_players(),
    {
        match &mut self.preferences {
            Some(chosen) => {
                chosen.insert(player_id, preferences);
            },
            None => {},
        }
        assert(self.formed() == old(self).formed());
        assert(self.player_teams() == old(self).player_teams());
        assert(self.team_players() == old(self).team_players());
        assert(self.choices() is None <==> old(self).choices() is None);
    }

    /// Whom a player chose, where players have a say and the player used it.
    pub open spec fn chosen_by(&self, watcher_id: Id) -> Option<Seq<Id>> {
        if self.choices() is Some && self.choices()->0.contains_key(watcher_id) {
            Some(self.choices()->0[watcher_id]@)
        } else {
            None
        }
    }

    /// Whom a player chose.
    pub fn get_preferences(&self, watcher_id: Id) -> (preferences: Option<Vec<Id>>)
        ensures
            match preferences {
                Some(chosen) => self.chosen_by(watcher_id) == Some(chosen@),
                None => self.chosen_by(watcher_id) is None,
            },
    {
        match &self.preferences {
            Some(preferences) => match preferences.get(watcher_id) {
                Some(chosen) => Some(concatenated(chosen, &Vec::new())),
                None => None,
            },
            None => None,
        }
    }

    /// The name of a team.
    pub open spec fn name_of(&self, team: Id, name: String) -> bool {
        exists|i: int| 0 <= i < self.formed()->0.len() && (#[trigger] self.formed()->0[i]) == (team, name)
    }

    /// Whether adding a player leads from here to `after`, with this team name.
    pub open spec fn player_added(
        &self,
        after: Self,
        watchers: Watchers,
        watchers_after: Watchers,
        player_id: Id,
        result: Option<String>,
    ) -> bool {
        &&& after.same_setup(self)
        &&& after.formed() == self.formed()
        &&& watchers_after.ids() == watchers.ids()
        &&& watchers_after.away() == watchers.away()
        &&& watchers_after.capacity() == watchers.capacity()
        &&& match self.formed() {
            None => result is None && after == *self && watchers_after == watchers,
            Some(teams) => if self.player_teams().contains_key(player_id) {
                &&& result is Some
                &&& self.name_of(self.player_teams()[player_id], result->0)
                &&& after == *self
                &&& watchers_after == watchers
            } else {
                let team = teams[(self.added() % teams.len()) as int];
                &&& result == Some(team.1)
                &&& after.added() == self.added() + 1
                &&& after.player_teams() == self.player_teams().insert(player_id, team.0)
                &&& after.team_players() == self.team_players().insert(
                    team.0,
                    self.team_players()[team.0].push(player_id),
                )
                &&& watchers_after.values() == joined_team(watchers.values(), seq![player_id], team.1, team.0)
            },
        }
    }

    /// Adds a player to the teams in turn, once they are formed, and tells the name of the player's
    /// team. One who is in a team stays there.
    pub fn add_player(&mut self, player_id: Id, watchers: &mut Watchers) -> (result: Option<String>)
        requires
            old(self).wf(),
            old(watchers).wf(),
        ensures
            final(self).wf(),
            final(watchers).wf(),
            old(self).player_added(*final(self), *old(watchers), *final(watchers), player_id, result),
    {
        if let Some(team) = self.get_team(player_id) {
            return match &self.teams {
                None => None,
                Some(teams) => {
                    let mut i: usize = 0;
                    while i < teams.len()
                        invariant
                            i <= teams.len(),
                            self.formed() == Some(teams@),
                            *self == *old(self),
                            *watchers == *old(watchers),
                            self.wf(),
                            watchers.wf(),
                            self.player_teams().contains_key(player_id),
                            team == self.player_teams()[player_id],
                            forall|j: int| 0 <= j < i ==> (#[trigger] teams[j]).0 != team,
                        decreases teams.len() - i,
                    {
                        if teams[i].0 == team {
                            let name = teams[i].1.clone();
                            assert(self.formed()->0[i as int] == (team, name));
                            return Some(name);
                        }
                        i = i + 1;
                    }
                    proof {
                        let j = choose|j: int| 0 <= j < teams@.len() && (#[trigger] teams@[j]).0 == team;
                        assert(teams[j].0 != team);
                    }
                    None
                },
            };
        }
        let (team_id, team_name) = match &self.teams {
            None => {
                return None;
            },
            Some(teams) => {
                let next_index: usize = self.next_team_to_receive_player % teams.len();
                (teams[next_index].0, teams[next_index].1.clone())
            },
        };
        let ghost teams = self.formed()->0;
        let ghost at = (self.added() % teams.len()) as int;
        assert(teams[at] == (team_id, team_name));
        self.player_to_team.insert(player_id, team_id);
        let total: usize = self.player_to_team.len();
        assert(total == old(self).player_teams().dom().len() + 1) by {
            assert(self.player_teams().dom() =~= old(self).player_teams().dom().insert(player_id));
        }
        self.next_team_to_receive_player = self.next_team_to_receive_player + 1;
        let mut players = match self.team_to_players.remove(team_id) {
            Some(players) => players,
            None => Vec::new(),
        };
        assert(players@ == old(self).team_players()[team_id]);
        players.push(player_id);
        self.team_to_players.insert(team_id, players);
        watchers.update_watcher_value(
            player_id,
            Value::Player(PlayerValue::Team { team_name: team_name.clone(), team_id }),
        );
        proof {
            assert(self.team_players() =~= old(self).team_players().insert(
                team_id,
                old(self).team_players()[team_id].push(player_id),
            ));
            assert(seq![player_id].contains(player_id)) by {
                assert(seq![player_id][0] == player_id);
            }
            assert(watchers.values() =~= joined_team(
                old(watchers).values(),
                seq![player_id],
                team_name,
                team_id,
            ));
            self.lemma_added(old(self), player_id, at);
        }
        Some(team_name)
    }

    proof fn lemma_added(&self, before: &Self, player_id: Id, at: int)
        requires
            before.wf(),
            before.formed() is Some,
            0 <= at < before.formed()->0.len(),
            !before.player_teams().contains_key(player_id),
            self.same_setup(before),
            self.formed() == before.formed(),
            self.added() == before.added() + 1,
            self.player_teams() == before.player_teams().insert(player_id, before.formed()->0[at].0),
            self.team_players() == before.team_players().insert(
                before.formed()->0[at].0,
                before.team_players()[before.formed()->0[at].0].push(player_id),
            ),
        ensures
            self.wf(),
    {
        let teams = before.formed()->0;
        let joined = teams[at].0;
        let old_players = before.team_players()[joined];
        let new_players = old_players.push(player_id);
        assert(before.team_players().contains_key(joined));
        assert forall|id: Id| #[trigger] new_players.contains(id) <==> old_players.contains(id) || id == player_id by {
            if old_players.contains(id) {
                let i = choose|i: int| 0 <= i < old_players.len() && old_players[i] == id;
                assert(new_players[i] == id);
            }
            assert(new_players[old_players.len() as int] == player_id);
            if new_players.contains(id) && id != player_id {
                let i = choose|i: int| 0 <= i < new_players.len() && new_players[i] == id;
                assert(old_players[i] == id);
            }
        }
        assert(self.player_teams().dom() =~= before.player_teams().dom().insert(player_id));
        assert(!old_players.contains(player_id)) by {
            if old_players.contains(player_id) {
                assert(before.team_players()[joined].contains(player_id));
            }
        }
        assert forall|player: Id| #[trigger] self.player_teams().contains_key(player) implies {
            &&& self.team_players().contains_key(self.player_teams()[player])
            &&& self.team_players()[self.player_teams()[player]].contains(player)
        } by {
            if player != player_id {
                assert(before.player_teams().contains_key(player));
            }
        }
        assert forall|team: Id| #[trigger] self.team_players().contains_key(team) implies self.team_players()[team].no_duplicates() by {
            assert(before.team_players().contains_key(team));
            if team == joined {
                assert forall|i: int, j: int| 0 <= i < j < new_players.len() implies new_players[i] != new_players[j] by {
                    assert(old_players.contains(old_players[i]));
                }
            }
        }
        assert forall|team: Id, player: Id|
            self.team_players().contains_key(team) && #[trigger] self.team_players()[team].contains(player) implies
            self.player_teams().contains_key(player) && self.player_teams()[player] == team by {
            assert(before.team_players().contains_key(team));
            if team == joined {
                assert(new_players.contains(player));
                if player != player_id {
                    assert(before.team_players()[team].contains(player));
                }
            } else {
                assert(before.team_players()[team].contains(player));
            }
        }
        assert forall|team: Id| #[trigger] self.team_players().contains_key(team) implies exists|i: int|
            0 <= i < teams.len() && (#[trigger] teams[i]).0 == team by {
            assert(before.team_players().contains_key(team));
        }
        assert forall|i: int| 0 <= i < teams.len() implies self.team_players().contains_key((#[trigger] teams[i]).0) by {
            assert(before.team_players().contains_key(teams[i].0));
        }
    }

    /// The players of a player's team.
    pub open spec fn teammates(&self, player_id: Id) -> Option<Seq<Id>> {
        match self.team_of(player_id) {
            Some(team) => if self.team_players().contains_key(team) {
                Some(self.team_players()[team])
            } else {
                None
            },
            None => None,
        }
    }

    /// The players of a player's team, the player among them.
    pub fn team_members(&self, player_id: Id) -> (members: Option<Vec<Id>>)
        ensures
            match members {
                Some(members) => self.teammates(player_id) == Some(members@),
                None => self.teammates(player_id) is None,
            },
    {
        match self.get_team(player_id) {
            None => None,
            Some(team) => match self.team_to_players.get(team) {
                None => None,
                Some(players) => {
                    assert(players@ + Seq::<Id>::empty() =~= players@);
                    Some(concatenated(players, &Vec::new()))
                },
            },
        }
    }

    /// The place of a player in the team, among those that `f` lets through.
    pub fn team_index<F: Fn(Id) -> bool>(&self, player_id: Id, f: F) -> (index: Option<usize>)
        requires
            forall|id: Id| call_requires(f, (id,)),
        ensures
            self.teammates(player_id) is None ==> index is None,
            self.teammates(player_id) is Some ==> exists|verdicts: Seq<bool>| #[trigger]
                judged(f, self.teammates(player_id)->0, verdicts) && is_place(
                    self.teammates(player_id)->0,
                    verdicts,
                    player_id,
                    index,
                ),
    {
        let members = match self.team_members(player_id) {
            None => {
                return None;
            },
            Some(members) => members,
        };
        let ghost mut verdicts: Seq<bool> = Seq::empty();
        let mut index: usize = 0;
        let mut i: usize = 0;
        while i < members.len()
            invariant
                forall|id: Id| call_requires(f, (id,)),
                self.teammates(player_id) == Some(members@),
                i <= members.len(),
                verdicts.len() == i,
                index <= i,
                index == let_through(verdicts),
                judged(f, members@, verdicts),
                forall|j: int| 0 <= j < i ==> !(members[j] == player_id && #[trigger] verdicts[j]),
            decreases members.len() - i,
        {
            let verdict = f(members[i]);
            let ghost before = verdicts;
            proof {
                verdicts = verdicts.push(verdict);
                assert(verdicts.drop_last() =~= before);
                assert(verdicts.take(i as int) =~= before);
            }
            if verdict {
                if members[i] == player_id {
                    assert(judged(f, self.teammates(player_id)->0, verdicts));
                    assert(verdicts[i as int]);
                    assert(is_place(members@, verdicts, player_id, Some(index)));
                    return Some(index);
                }
                index = index + 1;
            }
            i = i + 1;
        }
        assert(judged(f, self.teammates(player_id)->0, verdicts));
        assert(is_place(members@, verdicts, player_id, None::<usize>));
        None
    }

    /// The players of a player's team who can be reached.
    pub open spec fn alive(&self, player_id: Id, open: Set<Id>) -> Seq<Id> {
        match self.teammates(player_id) {
            Some(members) => members.filter(|id: Id| open.contains(id)),
            None => Seq::empty(),
        }
    }

    /// How many of a player's team can be reached, and one at least.
    pub open spec fn alive_size(&self, player_id: Id, open: Set<Id>) -> nat {
        if self.alive(player_id, open).len() == 0 {
            1
        } else {
            self.alive(player_id, open).len()
        }
    }

    /// The place of a player among those of the team who can be reached, zero for one who cannot.
    pub open spec fn alive_index(&self, player_id: Id, open: Set<Id>) -> nat {
        match first_place(self.alive(player_id, open), player_id) {
            Some(place) => place,
            None => 0,
        }
    }

    /// How many of a player's team can be reached, and one at least.
    pub fn alive_team_size(&self, player_id: Id, tunnels: &Tunnels) -> (size: usize)
        ensures
            size == self.alive_size(player_id, tunnels@),
    {
        match self.team_members(player_id) {
            None => 1,
            Some(members) => {
                let alive = tunnels.among(&members);
                if alive.len() == 0 {
                    1
                } else {
                    alive.len()
                }
            },
        }
    }

    /// The place of a player among those of the team who can be reached, zero for one who cannot.
    pub fn alive_team_index(&self, player_id: Id, tunnels: &Tunnels) -> (index: usize)
        ensures
            index == self.alive_index(player_id, tunnels@),
    {
        match self.team_members(player_id) {
            None => 0,
            Some(members) => {
                let alive = tunnels.among(&members);
                let mut i: usize = 0;
                assert(alive@.skip(0) =~= alive@);
                while i < alive.len()
                    invariant
                        i <= alive.len(),
                        alive@ == self.alive(player_id, tunnels@),
                        match first_place(alive@.skip(i as int), player_id) {
                            Some(place) => first_place(alive@, player_id) == Some((place + i) as nat),
                            None => first_place(alive@, player_id) is None,
                        },
                    decreases alive.len() - i,
                {
                    assert(alive@.skip(i as int)[0] == alive@[i as int]);
                    if alive[i] == player_id {
                        return i;
                    }
                    assert(alive@.skip(i as int).drop_first() =~= alive@.skip(i + 1));
                    i = i + 1;
                }
                0
            },
        }
    }

    /// The teams.
    pub open spec fn team_ids(&self) -> Seq<Id> {
        match self.formed() {
            None => Seq::<Id>::empty(),
            Some(teams) => teams.map_values(|team: (Id, String)| team.0),
        }
    }

    /// The teams.
    pub fn all_ids(&self) -> (ids: Vec<Id>)
        ensures
            ids@ == self.team_ids(),
    {
        let mut ids: Vec<Id> = Vec::new();
        match &self.teams {
            None => {},
            Some(teams) => {
                let mut i: usize = 0;
                while i < teams.len()
                    invariant
                        i <= teams.len(),
                        ids@ == teams@.take(i as int).map_values(|team: (Id, String)| team.0),
                    decreases teams.len() - i,
                {
                    ids.push(teams[i].0);
                    i = i + 1;
                    assert(ids@ =~= teams@.take(i as int).map_values(|team: (Id, String)| team.0));
                }
                assert(teams@.take(i as int) =~= teams@);
            },
        }
        ids
    }
}

/// Whether `read` are the names of the participants.
pub open spec fn names_read(names: Names, ids: Seq<Id>, read: Seq<String>) -> bool {
    &&& read.len() == ids.len()
    &&& forall|i: int| 0 <= i < read.len() ==> (#[trigger] read[i])@ == names.name_or_unknown(ids[i])
}

/// Whether `read` names the teams in the given order, each with its players.
pub open spec fn assignments_read(
    teams: Map<Id, Seq<Id>>,
    names: Names,
    order: Seq<Id>,
    read: Seq<(String, Vec<String>)>,
) -> bool {
    &&& read.len() == order.len()
    &&& forall|i: int|
        0 <= i < read.len() ==> {
            &&& (#[trigger] read[i]).0@ == names.name_or_unknown(order[i])
            &&& names_read(names, teams[order[i]], read[i].1@)
        }
}

/// Whether `f` may have given these verdicts on the first members.
pub open spec fn judged<F: Fn(Id) -> bool>(f: F, members: Seq<Id>, verdicts: Seq<bool>) -> bool {
    &&& verdicts.len() <= members.len()
    &&& forall|i: int| 0 <= i < verdicts.len() ==> call_ensures(f, (members[i],), #[trigger] verdicts[i])
}

/// How many were let through.
pub open spec fn let_through(verdicts: Seq<bool>) -> nat
    decreases verdicts.len(),
{
    if verdicts.len() == 0 {
        0
    } else {
        let_through(verdicts.drop_last()) + if verdicts.last() { 1nat } else { 0nat }
    }
}

/// Whether `index` is the place of the first occurrence of `player` that was let through, among all
/// that were; `None` where every member was looked at and that is nowhere.
pub open spec fn is_place(members: Seq<Id>, verdicts: Seq<bool>, player: Id, index: Option<usize>) -> bool {
    match index {
        Some(index) => exists|i: int| {
            &&& 0 <= i < verdicts.len()
            &&& members[i] == player
            &&& #[trigger] verdicts[i]
            &&& index == let_through(verdicts.take(i))
            &&& forall|j: int| 0 <= j < i ==> !(members[j] == player && #[trigger] verdicts[j])
        },
        None => {
            &&& verdicts.len() == members.len()
            &&& forall|j: int| 0 <= j < members.len() ==> !(members[j] == player && #[trigger] verdicts[j])
        },
    }
}

/// The first place of `id` in the list.
pub open spec fn first_place(ids: Seq<Id>, id: Id) -> Option<nat>
    decreases ids.len(),
{
    if ids.len() == 0 {
        None
    } else if ids[0] == id {
        Some(0)
    } else {
        match first_place(ids.drop_first(), id) {
            Some(place) => Some(place + 1),
            None => None,
        }
    }
}

/// Someone in the list has a place there.
pub proof fn lemma_first_place(ids: Seq<Id>, id: Id)
    ensures
        match first_place(ids, id) {
            Some(place) => place < ids.len() && ids[place as int] == id,
            None => !ids.contains(id),
        },
    decreases ids.len(),
{
    if ids.len() > 0 {
        lemma_first_place(ids.drop_first(), id);
        if ids.contains(id) && ids[0] != id {
            let i = choose|i: int| 0 <= i < ids.len() && ids[i] == id;
            assert(ids.drop_first()[i - 1] == id);
        }
    }
}

/// Once there are teams, a player is among those of the player's team, and in no other team.
pub proof fn players_are_in_one_team<N: NamingScheme>(manager: TeamManager<N>, player: Id, team: Id)
    requires
        manager.wf(),
        manager.team_players().contains_key(team),
    ensures
        manager.team_players()[team].contains(player) <==> manager.team_of(player) == Some(team),
{
}

/// A player in a team is among its members, each once; and exactly those are members of it who have
/// the same team, and so the same members.
pub proof fn teammates_share_a_team<N: NamingScheme>(manager: TeamManager<N>, player: Id, other: Id)
    requires
        manager.wf(),
    ensures
        manager.teammates(player) is Some <==> manager.team_of(player) is Some,
        manager.teammates(player) is Some ==> {
            let members = manager.teammates(player)->0;
            &&& members.no_duplicates()
            &&& members.contains(player)
            &&& members.contains(other) <==> manager.team_of(other) == manager.team_of(player)
            &&& members.contains(other) <==> manager.teammates(other) == Some(members)
        },
{
    if manager.teammates(player) is Some {
        let team = manager.team_of(player)->0;
        players_are_in_one_team(manager, other, team);
        if manager.teammates(other) == manager.teammates(player) {
            players_are_in_one_team(manager, other, manager.team_of(other)->0);
        }
    }
}

/// Whom a player chose is kept, in place of an earlier choice, and changes nothing for others; where
/// players have no say, nothing is kept.
pub proof fn choices_are_kept<N: NamingScheme>(
    before: TeamManager<N>,
    after: TeamManager<N>,
    player: Id,
    chosen: Vec<Id>,
    other: Id,
)
    requires
        before.wf(),
        after.choices() == match before.choices() {
            Some(choices) => Some(choices.insert(player, chosen)),
            None => None,
        },
    ensures
        !before.random() ==> after.chosen_by(player) == Some(chosen@),
        before.random() ==> after.chosen_by(player) is None,
        other != player ==> after.chosen_by(other) == before.chosen_by(other),
{
}

/// Names are listed once the teams are formed: all teams are counted, fifty are shown at most, and the
/// names are those of the teams in order.
pub proof fn names_are_those_of_the_teams<N: NamingScheme>(manager: TeamManager<N>, names: Option<TruncatedVec<&str>>)
    requires
        manager.shows_names(names),
    ensures
        names is Some <==> manager.formed() is Some,
        names is Some ==> {
            let ids = manager.team_ids();
            &&& names->0.total() == ids.len()
            &&& names->0.kept().len() == if ids.len() < 50 { ids.len() } else { 50 }
            &&& forall|i: int|
                0 <= i < names->0.kept().len() ==> manager.formed()->0[i].0 == ids[i] && (
                #[trigger] names->0.kept()[i])@ == manager.formed()->0[i].1@
        },
{
}

/// The place of a player who can be reached is the number of those before the player in the team who
/// can be; it is zero for everyone else, and always below the number of those who can be reached.
pub proof fn alive_places_count_those_before<N: NamingScheme>(manager: TeamManager<N>, player: Id, open: Set<Id>, at: int)
    requires
        manager.wf(),
        manager.team_of(player) is Some ==> 0 <= at < manager.teammates(player)->0.len()
            && manager.teammates(player)->0[at] == player,
    ensures
        manager.alive_index(player, open) < manager.alive_size(player, open),
        manager.alive_index(player, open) == if manager.team_of(player) is Some && open.contains(player) {
            manager.teammates(player)->0.take(at).filter(|id: Id| open.contains(id)).len()
        } else {
            0
        },
{
    let alive = manager.alive(player, open);
    let pred = |id: Id| open.contains(id);
    lemma_first_place(alive, player);
    if manager.team_of(player) is Some {
        teammates_share_a_team(manager, player, player);
        let members = manager.teammates(player)->0;
        crate::seqs::lemma_filter_no_duplicates(members, pred);
        if open.contains(player) {
            let front = members.take(at + 1);
            let back = members.skip(at + 1);
            assert(members =~= front + back);
            Seq::filter_distributes_over_add(front, back, pred);
            lemma_filter_take(members, pred, at);
            let n = members.take(at).filter(pred).len();
            assert(alive == front.filter(pred) + back.filter(pred));
            assert(alive[n as int] == player);
        }
    }
}

/// Every place in a team, from zero up to the number of those who can be reached, is that of one of
/// them.
pub proof fn alive_places_are_taken<N: NamingScheme>(manager: TeamManager<N>, player: Id, open: Set<Id>, place: int)
    requires
        manager.wf(),
        0 <= place < manager.alive(player, open).len(),
    ensures
        manager.team_of(manager.alive(player, open)[place]) == manager.team_of(player),
        open.contains(manager.alive(player, open)[place]),
        manager.alive_index(manager.alive(player, open)[place], open) == place,
{
    let alive = manager.alive(player, open);
    let other = alive[place];
    let pred = |id: Id| open.contains(id);
    let members = manager.teammates(player)->0;
    teammates_share_a_team(manager, player, other);
    crate::seqs::lemma_filter_no_duplicates(members, pred);
    assert(alive.contains(other));
    lemma_first_place(alive, other);
}

/// Those of a team who can be reached have places of their own there, from zero on.
pub proof fn alive_places_are_distinct<N: NamingScheme>(manager: TeamManager<N>, a: Id, b: Id, open: Set<Id>)
    requires
        manager.wf(),
        manager.team_of(a) is Some,
        manager.team_of(a) == manager.team_of(b),
        open.contains(a),
        open.contains(b),
    ensures
        manager.alive_index(a, open) < manager.alive_size(a, open),
        manager.alive_size(a, open) == manager.alive_size(b, open),
        manager.alive_index(a, open) == manager.alive_index(b, open) ==> a == b,
{
    let members = manager.teammates(a)->0;
    assert(manager.player_teams().contains_key(a) && manager.player_teams().contains_key(b));
    assert(members.contains(a) && members.contains(b));
    crate::seqs::lemma_filter_no_duplicates(members, |id: Id| open.contains(id));
    assert(manager.alive(a, open).contains(a) && manager.alive(a, open).contains(b));
    lemma_first_place(manager.alive(a, open), a);
    lemma_first_place(manager.alive(a, open), b);
}

/// Whoever is among the players of a team that is formed is bound to it, and to no other.
proof fn lemma_formed<N: NamingScheme>(
    before: TeamManager<N>,
    after: TeamManager<N>,
    players: Seq<Id>,
    groups: Seq<Seq<Id>>,
    teams: Seq<(Id, String, Vec<Id>)>,
    player: Id,
)
    requires
        before.target() > 0,
        players.no_duplicates(),
        before.formed_as(&after, players, groups, teams),
    ensures
        forall|i: int|
            0 <= i < teams.len() && (#[trigger] teams[i]).2@.contains(player) ==> after.team_of(player) == Some(
                teams[i].0,
            ),
        players.contains(player) ==> exists|i: int| 0 <= i < teams.len() && (#[trigger] teams[i]).2@.contains(player),
        forall|i: int, j: int|
            0 <= i < teams.len() && 0 <= j < teams.len() && (#[trigger] teams[i]).2@.contains(player) && (
            #[trigger] teams[j]).2@.contains(player) ==> i == j,
{
    groups_hold_the_players(before.choices(), players, groups);
    let made = rosters(teams);
    if players.len() == 0 {
        lemma_no_players(groups, before.target());
    } else {
        teams_hold_everyone_once(groups, players.len(), before.target());
    }
    assert forall|id: Id| #[trigger] members(made).count(id) <= 1 by {
        if players.len() > 0 {
            assert(members(groups).count(id) <= 1);
        }
    }
    lemma_members_are_apart(made);
    assert forall|i: int, j: int|
        0 <= i < teams.len() && 0 <= j < teams.len() && (#[trigger] teams[i]).2@.contains(player) && (
        #[trigger] teams[j]).2@.contains(player) implies i == j by {
        assert(made[i].contains(player) && made[j].contains(player));
    }
    lemma_assigned(Map::empty(), teams, player);
    lemma_members_count(made, player);
    players.to_multiset_ensures();
    if players.contains(player) {
        assert(members(made).count(player) > 0);
        let i = choose|i: int| 0 <= i < made.len() && #[trigger] made[i].contains(player);
        assert(teams[i].2@.contains(player));
    }
}

/// Once the teams are formed, those of the players who can be reached are in them, and nobody else;
/// each of them is then a player of that team, and all others are what they were; no two teams share an identifier or a name; and where nobody plays, there is one
/// team without players.
pub proof fn forming_partitions_the_players<N: NamingScheme>(
    before: TeamManager<N>,
    after: TeamManager<N>,
    watchers: Watchers,
    watchers_after: Watchers,
    names: Names,
    names_after: Names,
    open: Set<Id>,
    profanity: Profanity,
    player: Id,
)
    requires
        before.wf(),
        before.formed() is None,
        before.target() > 0,
        watchers.wf(),
        names_after.wf(),
        before.finalized(after, watchers, watchers_after, names, names_after, open, profanity, true),
    ensures
        after.formed() is Some,
        watchers.reachable(ValueKind::Player, open).contains(player) <==> after.team_of(player) is Some,
        forall|i: int, j: int|
            0 <= i < j < after.formed()->0.len() ==> {
                &&& (#[trigger] after.formed()->0[i]).0 != (#[trigger] after.formed()->0[j]).0
                &&& after.formed()->0[i].1@ != after.formed()->0[j].1@
            },
        forall|i: int|
            0 <= i < after.formed()->0.len() ==> {
                let (team, name) = #[trigger] after.formed()->0[i];
                names_after@.contains_key(team) && names_after@[team]@ == name@
            },
        after.team_of(player) is Some ==> exists|i: int| {
            &&& 0 <= i < after.formed()->0.len()
            &&& (#[trigger] after.formed()->0[i]).0 == after.team_of(player)->0
            &&& watchers_after.values()[player] == team_player(after.formed()->0[i].1, after.formed()->0[i].0)
        },
        !watchers.reachable(ValueKind::Player, open).contains(player) ==> {
            &&& watchers_after.values().contains_key(player) == watchers.values().contains_key(player)
            &&& watchers.values().contains_key(player) ==> watchers_after.values()[player] == watchers.values()[player]
        },
        watchers.reachable(ValueKind::Player, open).len() == 0 ==> after.formed()->0.len() == 1
            && after.team_players()[after.formed()->0[0].0] == Seq::<Id>::empty(),
{
    let players = watchers.reachable(ValueKind::Player, open);
    let (groups, teams) = choose|groups: Seq<Seq<Id>>, teams: Seq<(Id, String, Vec<Id>)>| {
        &&& #[trigger] before.formed_as(&after, players, groups, teams)
        &&& teams_named(before.style(), names, names_after, teams, profanity)
        &&& watchers_after.values() == joined_teams(watchers.values(), teams)
    };
    crate::watcher::reachable_no_duplicates(watchers, ValueKind::Player, open);
    forming_places_every_player(before, after, players, groups, teams, player);
    lemma_formed(before, after, players, groups, teams, player);
    let list = after.formed()->0;
    assert forall|i: int, j: int| 0 <= i < j < list.len() implies {
        &&& (#[trigger] list[i]).0 != (#[trigger] list[j]).0
        &&& list[i].1@ != list[j].1@
    } by {
        assert(list[i] == (teams[i].0, teams[i].1) && list[j] == (teams[j].0, teams[j].1));
        assert(names_after@.contains_key(teams[i].0) && names_after@.contains_key(teams[j].0));
    }
    assert forall|i: int| 0 <= i < list.len() implies ({
        let (team, name) = #[trigger] list[i];
        names_after@.contains_key(team) && names_after@[team]@ == name@
    }) by {
        assert(list[i] == (teams[i].0, teams[i].1));
    }
    if after.team_of(player) is Some {
        let i = choose|i: int| 0 <= i < teams.len() && (#[trigger] teams[i]).2@.contains(player);
        assert(list[i] == (teams[i].0, teams[i].1));
        lemma_joined_teams(watchers.values(), teams, player, i);
    }
    if !players.contains(player) {
        assert forall|i: int| 0 <= i < teams.len() implies !(#[trigger] teams[i]).2@.contains(player) by {
            if teams[i].2@.contains(player) {
                assert(after.team_of(player) is Some);
            }
        }
        lemma_joined_nowhere(watchers.values(), teams, player);
    }
    if players.len() == 0 {
        lemma_no_players(groups, before.target());
        assert(rosters(teams).len() == 1);
        assert(rosters(teams)[0] == teams[0].2@);
        assert(list[0] == (teams[0].0, teams[0].1));
        assert(teams.drop_last() =~= Seq::<(Id, String, Vec<Id>)>::empty());
        reveal_with_fuel(enlisted, 2);
        assert(teams.last() == teams[0]);
    }
}

proof fn lemma_joined_teams(values: Map<Id, Value>, teams: Seq<(Id, String, Vec<Id>)>, player: Id, at: int)
    requires
        values.contains_key(player),
        0 <= at < teams.len(),
        teams[at].2@.contains(player),
        forall|i: int| 0 <= i < teams.len() && (#[trigger] teams[i]).2@.contains(player) ==> i == at,
    ensures
        joined_teams(values, teams).contains_key(player),
        joined_teams(values, teams)[player] == team_player(teams[at].1, teams[at].0),
    decreases teams.len(),
{
    let rest = teams.drop_last();
    if at < teams.len() - 1 {
        assert(!teams[teams.len() - 1].2@.contains(player));
        assert(rest[at].2@.contains(player));
        assert forall|i: int| 0 <= i < rest.len() && (#[trigger] rest[i]).2@.contains(player) implies i == at by {
            assert(teams[i].2@.contains(player));
        }
        lemma_joined_teams(values, rest, player, at);
    } else {
        lemma_joined_keys(values, rest, player);
    }
}

proof fn lemma_joined_nowhere(values: Map<Id, Value>, teams: Seq<(Id, String, Vec<Id>)>, id: Id)
    requires
        forall|i: int| 0 <= i < teams.len() ==> !(#[trigger] teams[i]).2@.contains(id),
    ensures
        joined_teams(values, teams).contains_key(id) == values.contains_key(id),
        values.contains_key(id) ==> joined_teams(values, teams)[id] == values[id],
    decreases teams.len(),
{
    if teams.len() > 0 {
        let rest = teams.drop_last();
        assert(!teams[teams.len() - 1].2@.contains(id));
        assert forall|i: int| 0 <= i < rest.len() implies !(#[trigger] rest[i]).2@.contains(id) by {
            assert(!teams[i].2@.contains(id));
        }
        lemma_joined_nowhere(values, rest, id);
    }
}

proof fn lemma_joined_keys(values: Map<Id, Value>, teams: Seq<(Id, String, Vec<Id>)>, player: Id)
    ensures
        joined_teams(values, teams).contains_key(player) <==> values.contains_key(player),
    decreases teams.len(),
{
    if teams.len() > 0 {
        lemma_joined_keys(values, teams.drop_last(), player);
    }
}

/// The names of teams have between one and 30 characters, and are not inappropriate where that matters.
pub proof fn names_of_teams_are_fit<N: NamingScheme>(
    style: N,
    before: Names,
    after: Names,
    teams: Seq<(Id, String, Vec<Id>)>,
    profanity: Profanity,
    i: int,
)
    requires
        teams_named(style, before, after, teams, profanity),
        0 <= i < teams.len(),
    ensures
        0 < teams[i].1@.len() <= MAX_NAME_LENGTH,
        profanity == Profanity::Censor ==> !inappropriate(teams[i].1@),
{
    assert(is_drawn(style, before, teams[i].0, teams[i].1@, profanity));
    let asked = choose|asked: String| {
        &&& #[trigger] draws(style, asked)
        &&& accepts(before, teams[i].0, asked@, profanity)
        &&& teams[i].1@ == trimmed(asked@)
    };
    accepted_names_are_fit(before, teams[i].0, asked@, profanity);
}

/// Two players who chose each other, and nobody else, play in one team, whatever others chose.
pub proof fn those_who_chose_each_other_share_a_team<N: NamingScheme>(
    before: TeamManager<N>,
    after: TeamManager<N>,
    watchers: Watchers,
    watchers_after: Watchers,
    names: Names,
    names_after: Names,
    open: Set<Id>,
    profanity: Profanity,
    a: Id,
    b: Id,
)
    requires
        before.wf(),
        before.formed() is None,
        before.target() > 0,
        watchers.wf(),
        before.finalized(after, watchers, watchers_after, names, names_after, open, profanity, true),
        watchers.reachable(ValueKind::Player, open).contains(a),
        watchers.reachable(ValueKind::Player, open).contains(b),
        before.choices() is Some,
        before.choices()->0.contains_key(a),
        before.choices()->0.contains_key(b),
        before.choices()->0[a]@ == seq![b],
        before.choices()->0[b]@ == seq![a],
    ensures
        after.team_of(a) is Some,
        after.team_of(a) == after.team_of(b),
{
    let players = watchers.reachable(ValueKind::Player, open);
    let (groups, teams) = choose|groups: Seq<Seq<Id>>, teams: Seq<(Id, String, Vec<Id>)>| {
        &&& #[trigger] before.formed_as(&after, players, groups, teams)
        &&& teams_named(before.style(), names, names_after, teams, profanity)
        &&& watchers_after.values() == joined_teams(watchers.values(), teams)
    };
    crate::watcher::reachable_no_duplicates(watchers, ValueKind::Player, open);
    lemma_formed(before, after, players, groups, teams, a);
    lemma_formed(before, after, players, groups, teams, b);
    if a != b {
        let choices = before.choices();
        assert(seq![b][0] == b && seq![a][0] == a);
        assert(chose(choices, a, b) && chose(choices, b, a));
        assert(mutual(choices, a, b));
        pairs_have_one_leader(choices, a, b);
        those_led_alike_stay_together(choices, players, groups, before.target(), a, b);
        let made = balanced(groups, players.len(), before.target());
        let i = choose|i: int| 0 <= i < made.len() && #[trigger] holds_both(made[i], a, b);
        assert(rosters(teams)[i] == teams[i].2@);
        assert(teams[i].2@.contains(a) && teams[i].2@.contains(b));
    }
}

/// Forming teams puts every player into one, and nobody else.
pub proof fn forming_places_every_player<N: NamingScheme>(
    before: TeamManager<N>,
    after: TeamManager<N>,
    players: Seq<Id>,
    groups: Seq<Seq<Id>>,
    teams: Seq<(Id, String, Vec<Id>)>,
    player: Id,
)
    requires
        before.wf(),
        before.formed() is None,
        before.target() > 0,
        players.no_duplicates(),
        before.formed_as(&after, players, groups, teams),
    ensures
        players.contains(player) <==> after.team_of(player) is Some,
{
    lemma_formed(before, after, players, groups, teams, player);
    lemma_assigned(Map::empty(), teams, player);
    groups_hold_the_players(before.choices(), players, groups);
    let made = rosters(teams);
    if players.len() == 0 {
        lemma_no_players(groups, before.target());
    } else {
        teams_hold_everyone_once(groups, players.len(), before.target());
    }
    lemma_members_count(made, player);
    players.to_multiset_ensures();
    if exists|i: int| 0 <= i < teams.len() && (#[trigger] teams[i]).2@.contains(player) {
        let i = choose|i: int| 0 <= i < teams.len() && (#[trigger] teams[i]).2@.contains(player);
        assert(made[i].contains(player));
    }
}

/// Where players have no say, there are as few teams as hold them at the size aimed at, and their
/// sizes differ by one at most.
pub proof fn random_teams_are_even<N: NamingScheme>(
    before: TeamManager<N>,
    after: TeamManager<N>,
    players: Seq<Id>,
    groups: Seq<Seq<Id>>,
    teams: Seq<(Id, String, Vec<Id>)>,
    i: int,
)
    requires
        before.wf(),
        before.random(),
        before.target() > 0,
        players.no_duplicates(),
        players.len() > 0,
        before.formed_as(&after, players, groups, teams),
        0 <= i < teams.len(),
    ensures
        teams.len() == teams_needed(players.len(), before.target()),
        players.len() / teams.len() <= teams[i].2.len() <= players.len() / teams.len() + 1,
        1 <= teams[i].2.len() <= before.target(),
{
    groups_without_choices_are_single(before.choices(), players, groups);
    single_players_are_dealt_out_evenly(groups, before.target());
    assert(rosters(teams)[i] == teams[i].2@);
    assert(redistributed(groups, before.target())[i] == teams[i].2@);
}

/// Adding a player twice is adding the player once.
pub proof fn added_players_stay<N: NamingScheme>(before: TeamManager<N>, after: TeamManager<N>, player: Id, team: Id)
    requires
        before.wf(),
        after.wf(),
        before.formed() is Some,
        after.formed() == before.formed(),
        after.player_teams() == before.player_teams().insert(player, team),
    ensures
        after.team_of(player) == Some(team),
        forall|other: Id| other != player ==> after.team_of(other) == #[trigger] before.team_of(other),
{
}

/// Whether every identifier is smaller than all that follow it.
pub open spec fn ascending(ids: Seq<Id>) -> bool {
    forall|i: int, j: int| 0 <= i < j < ids.len() ==> (#[trigger] ids[i]).0 < (#[trigger] ids[j]).0
}

proof fn lemma_take_contains(ids: Seq<Id>, i: int, id: Id)
    requires
        0 <= i < ids.len(),
    ensures
        ids.take(i + 1).contains(id) <==> ids.take(i).contains(id) || ids[i] == id,
{
    let shorter = ids.take(i);
    let longer = ids.take(i + 1);
    assert(longer =~= shorter.push(ids[i]));
    if shorter.contains(id) {
        let j = choose|j: int| 0 <= j < shorter.len() && shorter[j] == id;
        assert(longer[j] == id);
    }
    if ids[i] == id {
        assert(longer[i] == id);
    }
    if longer.contains(id) && ids[i] != id {
        let j = choose|j: int| 0 <= j < longer.len() && longer[j] == id;
        assert(shorter[j] == id);
    }
}

proof fn lemma_insert_contains(ids: Seq<Id>, at: int, new: Id, id: Id)
    requires
        0 <= at <= ids.len(),
    ensures
        ids.insert(at, new).contains(id) <==> ids.contains(id) || id == new,
{
    let after = ids.insert(at, new);
    if ids.contains(id) {
        let i = choose|i: int| 0 <= i < ids.len() && ids[i] == id;
        if i < at {
            assert(after[i] == id);
        } else {
            assert(after[i + 1] == id);
        }
    }
    if id == new {
        assert(after[at] == id);
    }
    if after.contains(id) && id != new {
        let i = choose|i: int| 0 <= i < after.len() && after[i] == id;
        if i < at {
            assert(ids[i] == id);
        } else {
            assert(ids[i - 1] == id);
        }
    }
}

/// The identifiers in rising order, each once.
fn sorted_distinct(ids: &Vec<Id>) -> (sorted: Vec<Id>)
    ensures
        ascending(sorted@),
        sorted@.to_set() == ids@.to_set(),
{
    let mut sorted: Vec<Id> = Vec::new();
    let mut n: usize = 0;
    while n < ids.len()
        invariant
            n <= ids.len(),
            ascending(sorted@),
            forall|id: Id| #[trigger] sorted@.contains(id) <==> ids@.take(n as int).contains(id),
        decreases ids.len() - n,
    {
        let id = ids[n];
        let mut at: usize = 0;
        while at < sorted.len() && sorted[at].0 < id.0
            invariant
                at <= sorted.len(),
                forall|i: int| 0 <= i < at ==> (#[trigger] sorted[i]).0 < id.0,
            ensures
                at <= sorted.len(),
                forall|i: int| 0 <= i < at ==> (#[trigger] sorted[i]).0 < id.0,
                at < sorted.len() ==> sorted[at as int].0 >= id.0,
            decreases sorted.len() - at,
        {
            at = at + 1;
        }
        let ghost before = sorted@;
        if at < sorted.len() && sorted[at] == id {
            assert(before.contains(before[at as int]));
            assert forall|other: Id| #[trigger] sorted@.contains(other) <==> ids@.take(n + 1).contains(other) by {
                lemma_take_contains(ids@, n as int, other);
                assert(before.contains(other) <==> ids@.take(n as int).contains(other));
            }
        } else {
            sorted.insert(at, id);
            proof {
                assert forall|other: Id| #[trigger] sorted@.contains(other) <==> ids@.take(n + 1).contains(other) by {
                    lemma_take_contains(ids@, n as int, other);
                    lemma_insert_contains(before, at as int, id, other);
                    assert(before.contains(other) <==> ids@.take(n as int).contains(other));
                }
                assert forall|i: int, j: int| 0 <= i < j < sorted.len() implies (#[trigger] sorted[i]).0 < (
                #[trigger] sorted[j]).0 by {
                    let a = if i < at { i } else { i - 1 };
                    let b = if j < at { j } else { j - 1 };
                    if i == at {
                        if at < b {
                            assert(before[at as int].0 < before[b].0);
                        }
                    } else if j == at {
                        assert(before[i].0 < id.0);
                    } else {
                        assert(before[a].0 < before[b].0);
                    }
                }
            }
        }
        n = n + 1;
    }
    proof {
        assert(ids@.take(n as int) =~= ids@);
        assert forall|id: Id| sorted@.to_set().contains(id) <==> ids@.to_set().contains(id) by {
            assert(sorted@.contains(id) <==> ids@.take(n as int).contains(id));
        }
        assert(sorted@.to_set() =~= ids@.to_set());
    }
    sorted
}

/// Players who come once the teams are formed are added to one team after the other, from the first one on
/// and round again; each becomes a player of that team, and nobody else is concerned.
pub proof fn late_players_go_round_the_teams<N: NamingScheme>(
    first: TeamManager<N>,
    second: TeamManager<N>,
    third: TeamManager<N>,
    watchers: Watchers,
    watchers_then: Watchers,
    watchers_after: Watchers,
    a: Id,
    b: Id,
    name_a: Option<String>,
    name_b: Option<String>,
    at: int,
    other: Id,
)
    requires
        first.wf(),
        second.wf(),
        first.formed() is Some,
        !first.player_teams().contains_key(a),
        !second.player_teams().contains_key(b),
        first.player_added(second, watchers, watchers_then, a, name_a),
        second.player_added(third, watchers_then, watchers_after, b, name_b),
        0 <= at < first.formed()->0.len(),
        first.formed()->0[at].0 == second.player_teams()[a],
        other != a,
    ensures
        ({
            let teams = first.formed()->0;
            let next = if at + 1 < teams.len() {
                at + 1
            } else {
                0
            };
            &&& second.team_of(a) == Some(teams[at].0)
            &&& name_a == Some(teams[at].1)
            &&& third.team_of(b) == Some(teams[next].0)
            &&& name_b == Some(teams[next].1)
            &&& first.added() == 0 ==> at == 0
            &&& watchers.values().contains_key(a) ==> watchers_then.values()[a] == Value::Player(
                PlayerValue::Team { team_name: teams[at].1, team_id: teams[at].0 },
            )
            &&& watchers_then.values().contains_key(other) <==> watchers.values().contains_key(other)
            &&& watchers.values().contains_key(other) ==> watchers_then.values()[other] == watchers.values()[other]
            &&& second.team_of(other) == first.team_of(other)
            &&& second.formed() == first.formed()
        }),
{
    let teams = first.formed()->0;
    let n = teams.len() as int;
    let k = first.added() as int;
    assert(seq![a][0] == a);
    assert(seq![a].contains(a));
    vstd::arithmetic::div_mod::lemma_fundamental_div_mod(k, n);
    vstd::arithmetic::div_mod::lemma_mod_bound(k, n);
    assert(at == k % n);
    if first.added() == 0 {
        vstd::arithmetic::div_mod::lemma_small_mod(0, n as nat);
    }
    if at + 1 < n {
        vstd::arithmetic::div_mod::lemma_fundamental_div_mod_converse(k + 1, n, k / n, at + 1);
    } else {
        assert(k + 1 == n * (k / n + 1) + 0) by (nonlinear_arith)
            requires
                k == n * (k / n) + n - 1,
        ;
        vstd::arithmetic::div_mod::lemma_fundamental_div_mod_converse(k + 1, n, k / n + 1, 0);
    }
}

/// A player of a team stays in it, and hears its name; before the teams are formed nobody is added.
pub proof fn players_of_a_team_stay<N: NamingScheme>(
    before: TeamManager<N>,
    after: TeamManager<N>,
    watchers: Watchers,
    watchers_after: Watchers,
    player: Id,
    name: Option<String>,
)
    requires
        before.wf(),
        before.player_added(after, watchers, watchers_after, player, name),
    ensures
        before.formed() is None <==> name is None,
        before.formed() is None || before.team_of(player) is Some ==> after == before && watchers_after == watchers,
        before.team_of(player) is Some ==> exists|i: int|
            0 <= i < before.formed()->0.len() && #[trigger] before.formed()->0[i] == (
                before.team_of(player)->0,
                name->0,
            ),
        before.formed() is Some ==> after.team_of(player) is Some,
{
}

/// Those of a team who can be reached are counted, and one at least.
pub proof fn reachable_teammates_are_counted<N: NamingScheme>(manager: TeamManager<N>, player: Id, open: Set<Id>, other: Id)
    requires
        manager.wf(),
    ensures
        manager.alive(player, open).no_duplicates(),
        manager.alive(player, open).contains(other) <==> manager.team_of(player) is Some && manager.team_of(other)
            == manager.team_of(player) && open.contains(other),
        manager.alive(player, open).len() > 0 ==> manager.alive_size(player, open) == manager.alive(player, open).len(),
        manager.alive(player, open).len() == 0 ==> manager.alive_size(player, open) == 1,
{
    if manager.team_of(player) is Some {
        teammates_share_a_team(manager, player, other);
        let members = manager.teammates(player)->0;
        crate::seqs::lemma_filter_no_duplicates(members, |id: Id| open.contains(id));
    }
}

/// Teams are formed once: asked again, nothing changes; and where it fails, nobody is in a team.
pub proof fn teams_are_formed_once<N: NamingScheme>(
    before: TeamManager<N>,
    after: TeamManager<N>,
    watchers: Watchers,
    watchers_after: Watchers,
    names: Names,
    names_after: Names,
    open: Set<Id>,
    profanity: Profanity,
    done: bool,
)
    requires
        before.wf(),
        before.finalized(after, watchers, watchers_after, names, names_after, open, profanity, done),
    ensures
        before.formed() is Some ==> done && after == before && watchers_after == watchers && names_after == names,
        done <==> after.formed() is Some,
        !done ==> after == before && watchers_after == watchers,
        after.target() == before.target(),
        after.random() == before.random(),
        after.choices() == before.choices(),
{
}

/// Those let through are counted one by one.
pub proof fn those_let_through_are_counted(verdicts: Seq<bool>)
    ensures
        let_through(Seq::<bool>::empty()) == 0,
        let_through(verdicts.push(true)) == let_through(verdicts) + 1,
        let_through(verdicts.push(false)) == let_through(verdicts),
{
    assert(verdicts.push(true).drop_last() =~= verdicts);
    assert(verdicts.push(false).drop_last() =~= verdicts);
}

/// Every team is read once, under its name and with the names of its players in order.
pub proof fn every_team_is_read_once<N: NamingScheme>(
    manager: TeamManager<N>,
    names: Names,
    read: Seq<(String, Vec<String>)>,
    team: Id,
)
    requires
        manager.is_assignments(names, read),
        manager.team_players().contains_key(team),
        names@.contains_key(team),
    ensures
        exists|i: int| {
            &&& 0 <= i < read.len()
            &&& (#[trigger] read[i]).0@ == names@[team]@
            &&& read[i].1@.len() == manager.team_players()[team].len()
            &&& forall|j: int|
                0 <= j < read[i].1@.len() && names@.contains_key(manager.team_players()[team][j])
                    ==> #[trigger] read[i].1@[j]@ == names@[manager.team_players()[team][j]]@
        },
        read.len() == manager.team_players().dom().len(),
{
    let order = choose|order: Seq<Id>| {
        &&& #[trigger] order.no_duplicates()
        &&& order.to_set() == manager.team_players().dom()
        &&& assignments_read(manager.team_players(), names, order, read)
    };
    assert(order.to_set().contains(team));
    let i = choose|i: int| 0 <= i < order.len() && order[i] == team;
    assert(read[i].0@ == names.name_or_unknown(order[i]));
    order.unique_seq_to_set();
}

/// The teams are counted and listed in order.
pub proof fn teams_are_listed<N: NamingScheme>(manager: TeamManager<N>, i: int)
    ensures
        manager.formed() is None ==> manager.team_ids().len() == 0,
        manager.formed() matches Some(teams) ==> manager.team_ids().len() == teams.len() && (0 <= i < teams.len()
            ==> manager.team_ids()[i] == teams[i].0),
{
}

proof fn lemma_let_through(verdicts: Seq<bool>)
    ensures
        Set::new(|i: int| 0 <= i < verdicts.len() && verdicts[i]).finite(),
        let_through(verdicts) == Set::new(|i: int| 0 <= i < verdicts.len() && verdicts[i]).len(),
    decreases verdicts.len(),
{
    let all = Set::new(|i: int| 0 <= i < verdicts.len() && verdicts[i]);
    if verdicts.len() == 0 {
        assert(all =~= Set::<int>::empty());
    } else {
        let rest = verdicts.drop_last();
        lemma_let_through(rest);
        let fewer = Set::new(|i: int| 0 <= i < rest.len() && rest[i]);
        if verdicts.last() {
            assert(all =~= fewer.insert(verdicts.len() - 1));
        } else {
            assert(all =~= fewer);
        }
    }
}

/// The place of a player is the number of members before them that were let through.
pub proof fn places_count_those_let_through(members: Seq<Id>, verdicts: Seq<bool>, player: Id, index: usize, at: int)
    requires
        members.no_duplicates(),
        verdicts.len() <= members.len(),
        is_place(members, verdicts, player, Some(index)),
        0 <= at < members.len(),
        members[at] == player,
    ensures
        at < verdicts.len(),
        verdicts[at],
        index == Set::new(|i: int| 0 <= i < at && verdicts[i]).len(),
{
    let i = choose|i: int| {
        &&& 0 <= i < verdicts.len()
        &&& members[i] == player
        &&& #[trigger] verdicts[i]
        &&& index == let_through(verdicts.take(i))
        &&& forall|j: int| 0 <= j < i ==> !(members[j] == player && #[trigger] verdicts[j])
    };
    assert(i == at);
    let front = verdicts.take(at);
    lemma_let_through(front);
    assert(Set::new(|i: int| 0 <= i < at && verdicts[i]) =~= Set::new(|i: int| 0 <= i < front.len() && front[i]));
}

} // verus!
