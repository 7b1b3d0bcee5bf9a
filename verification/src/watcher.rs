//! Participants of a game and what they are in it.
use vstd::prelude::*;

use crate::id_map::IdMap;
use crate::random::random_u128;
use crate::seqs::{lemma_filter_keeps_order, lemma_filter_no_duplicates, lemma_filter_take};
use crate::session::{Audience, Tunnels};
use crate::texts::{decimal, decimal_text, is_decimal, numbers_are_read_back, read_decimal};

verus! {

/// Identifies a participant, or a team of them.
#[derive(Copy, Clone, Debug, PartialEq, Eq, PartialOrd, Ord, Hash, Structural)]
pub struct Id(pub u128);

impl Id {
    /// Whether the identifier was drawn at random.
    pub closed spec fn was_drawn(self) -> bool {
        exists|number: u128| #[trigger] call_ensures(random_u128, (), number) && self.0 == number
    }

    /// A fresh random identifier.
    pub fn new() -> (id: Self)
        ensures
            id.was_drawn(),
    {
        let number: u128 = random_u128();
        assert(call_ensures(random_u128, (), number));
        Id(number)
    }

    /// The identifier as a text.
    pub fn to_text(&self) -> (text: String)
        ensures
            text@ == decimal(self.0 as nat),
    {
        decimal_text(self.0)
    }

    /// The identifier that a text stands for.
    pub fn from_text(text: &str) -> (id: Option<Id>)
        ensures
            match id {
                Some(id) => text@ == decimal(id.0 as nat),
                None => !is_decimal(text@),
            },
    {
        match read_decimal(text) {
            Some(number) => Some(Id(number)),
            None => None,
        }
    }
}

/// What a participant is in the game, without the particulars.
#[derive(Copy, Clone, Debug, PartialEq, Eq, Hash, Structural)]
pub enum ValueKind {
    /// Connected, and without a name so far.
    Unassigned,
    /// Runs the game.
    Host,
    /// Plays it.
    Player,
}

/// How a player plays.
#[derive(Debug)]
pub enum PlayerValue {
    /// Alone, or in a team that is still to be formed.
    Individual,
    /// In a team.
    Team {
        /// The team's name.
        team_name: String,
        /// The team.
        team_id: Id,
    },
}

/// What a participant is in the game.
#[derive(Debug)]
pub enum Value {
    /// Connected, and without a name so far.
    Unassigned,
    /// Runs the game.
    Host,
    /// Plays it.
    Player(PlayerValue),
}

impl Clone for PlayerValue {
    fn clone(&self) -> (copy: Self)
        ensures
            copy == *self,
    {
        match self {
            PlayerValue::Individual => PlayerValue::Individual,
            PlayerValue::Team { team_name, team_id } => PlayerValue::Team {
                team_name: team_name.clone(),
                team_id: *team_id,
            },
        }
    }
}

impl Clone for Value {
    fn clone(&self) -> (copy: Self)
        ensures
            copy == *self,
    {
        match self {
            Value::Unassigned => Value::Unassigned,
            Value::Host => Value::Host,
            Value::Player(player) => Value::Player(player.clone()),
        }
    }
}

impl Value {
    /// The value without the particulars.
    pub open spec fn spec_kind(&self) -> ValueKind {
        match self {
            Value::Unassigned => ValueKind::Unassigned,
            Value::Host => ValueKind::Host,
            Value::Player(_) => ValueKind::Player,
        }
    }

    /// The value without the particulars.
    pub fn kind(&self) -> (kind: ValueKind)
        ensures
            kind == self.spec_kind(),
    {
        match self {
            Value::Unassigned => ValueKind::Unassigned,
            Value::Host => ValueKind::Host,
            Value::Player(_) => ValueKind::Player,
        }
    }
}

/// Why a participant cannot join.
#[derive(Copy, Clone, Debug, PartialEq, Eq, Structural)]
pub enum Error {
    /// The game holds as many players as it may.
    MaximumPlayers,
    /// Someone joined under the identifier.
    IdInUse,
}

impl Error {
    /// The error in words.
    pub fn message(&self) -> (text: &'static str)
        ensures
            text@ == match *self {
                Error::MaximumPlayers => "maximum number of players reached"@,
                Error::IdInUse => "identifier already in use"@,
            },
    {
        match self {
            Error::MaximumPlayers => "maximum number of players reached",
            Error::IdInUse => "identifier already in use",
        }
    }
}

/// Everyone who takes part in a game, in the order in which they joined.
#[derive(Debug)]
pub struct Watchers {
    roster: Vec<Id>,
    values: IdMap<Value>,
    away: IdMap<()>,
    max_players: usize,
}

impl Watchers {
    /// Everyone who joined, in order.
    pub closed spec fn ids(&self) -> Seq<Id> {
        self.roster@
    }

    /// What everyone is.
    pub closed spec fn values(&self) -> Map<Id, Value> {
        self.values@
    }

    /// Those who joined and then left.
    pub closed spec fn away(&self) -> Set<Id> {
        self.away@.dom()
    }

    /// How many may play.
    pub closed spec fn capacity(&self) -> nat {
        self.max_players as nat
    }

    /// Nobody is listed twice, and everyone listed is something.
    pub open spec fn wf(&self) -> bool {
        &&& self.ids().no_duplicates()
        &&& forall|id: Id| #[trigger] self.ids().contains(id) <==> self.values().contains_key(id)
        &&& forall|id: Id| #[trigger] self.away().contains(id) ==> self.values().contains_key(id)
    }

    /// Whether these are the participants, each with what they are and whether they are away.
    pub open spec fn has_entries(&self, entries: Seq<(Id, Value, bool)>) -> bool {
        &&& self.ids() == entries.map_values(|entry: (Id, Value, bool)| entry.0)
        &&& forall|i: int|
            0 <= i < entries.len() ==> {
                &&& self.values()[(#[trigger] entries[i]).0] == entries[i].1
                &&& self.away().contains(entries[i].0) == entries[i].2
            }
    }

    /// The participants, each with what they are and whether they are away.
    pub fn entries(&self) -> (entries: Vec<(Id, Value, bool)>)
        requires
            self.wf(),
        ensures
            self.has_entries(entries@),
    {
        let mut entries: Vec<(Id, Value, bool)> = Vec::new();
        let mut i: usize = 0;
        while i < self.roster.len()
            invariant
                self.wf(),
                i <= self.roster.len(),
                entries.len() == i,
                forall|j: int|
                    0 <= j < i ==> {
                        &&& (#[trigger] entries[j]).0 == self.ids()[j]
                        &&& self.values()[entries[j].0] == entries[j].1
                        &&& self.away().contains(entries[j].0) == entries[j].2
                    },
            decreases self.roster.len() - i,
        {
            let id = self.roster[i];
            assert(self.ids().contains(self.ids()[i as int]));
            if let Some(value) = self.values.get(id) {
                entries.push((id, value.clone(), self.away.contains_key(id)));
            }
            i = i + 1;
        }
        assert(self.ids() =~= entries@.map_values(|entry: (Id, Value, bool)| entry.0));
        entries
    }

    /// How many can join besides the host.
    pub fn max_players(&self) -> (max: usize)
        ensures
            max == self.capacity(),
    {
        self.max_players
    }

    /// These participants, each with what they are and whether they are away; `None` where one is
    /// listed twice.
    pub fn from_entries(entries: Vec<(Id, Value, bool)>, max_players: usize) -> (watchers: Option<Self>)
        ensures
            match watchers {
                Some(watchers) => {
                    &&& watchers.wf()
                    &&& watchers.has_entries(entries@)
                    &&& watchers.capacity() == max_players
                },
                None => !entries@.map_values(|entry: (Id, Value, bool)| entry.0).no_duplicates(),
            },
    {
        let ghost ids = entries@.map_values(|entry: (Id, Value, bool)| entry.0);
        let mut watchers = Watchers::new(max_players);
        let mut i: usize = 0;
        assert(watchers.ids() =~= ids.take(0));
        while i < entries.len()
            invariant
                i <= entries.len(),
                ids == entries@.map_values(|entry: (Id, Value, bool)| entry.0),
                watchers.wf(),
                watchers.capacity() == max_players,
                watchers.ids() == ids.take(i as int),
                forall|j: int|
                    0 <= j < i ==> {
                        &&& watchers.values()[(#[trigger] entries[j]).0] == entries[j].1
                        &&& watchers.away().contains(entries[j].0) == entries[j].2
                    },
            decreases entries.len() - i,
        {
            let id = entries[i].0;
            let ghost before = watchers;
            if watchers.values.contains_key(id) {
                proof {
                    assert(watchers.ids().contains(id));
                    let j = choose|j: int| 0 <= j < watchers.ids().len() && watchers.ids()[j] == id;
                    assert(ids[j] == ids[i as int]);
                }
                return None;
            }
            watchers.roster.push(id);
            watchers.values.insert(id, entries[i].1.clone());
            if entries[i].2 {
                watchers.away.insert(id, ());
            }
            proof {
                assert(watchers.ids() =~= before.ids().push(id));
                assert(watchers.ids() =~= ids.take(i + 1));
                assert(!before.ids().contains(id));
                assert forall|other: Id| #[trigger] watchers.ids().contains(other) <==> watchers.values().contains_key(other) by {
                    if before.ids().contains(other) {
                        let j = choose|j: int| 0 <= j < before.ids().len() && before.ids()[j] == other;
                        assert(watchers.ids()[j] == other);
                    }
                    assert(watchers.ids()[i as int] == id);
                    if watchers.ids().contains(other) && other != id {
                        let j = choose|j: int| 0 <= j < watchers.ids().len() && watchers.ids()[j] == other;
                        assert(before.ids()[j] == other);
                    }
                }
                assert(watchers.away() =~= if entries[i as int].2 { before.away().insert(id) } else { before.away() });
                assert forall|other: Id| #[trigger] watchers.away().contains(other) implies watchers.values().contains_key(
                    other,
                ) by {
                    if other != id {
                        assert(before.away().contains(other));
                    }
                }
                assert forall|j: int| 0 <= j < i + 1 implies {
                    &&& watchers.values()[(#[trigger] entries[j]).0] == entries[j].1
                    &&& watchers.away().contains(entries[j].0) == entries[j].2
                } by {
                    if j < i {
                        assert(before.ids()[j] == entries[j].0);
                        assert(before.ids().contains(before.ids()[j]));
                    } else {
                        assert(!before.away().contains(id));
                    }
                }
            }
            i = i + 1;
        }
        assert(ids.take(i as int) =~= ids);
        Some(watchers)
    }

    /// Those of one kind who have not left, in the order in which they joined.
    pub open spec fn present(&self, kind: ValueKind) -> Seq<Id> {
        self.ids().filter(
            |id: Id| self.values()[id].spec_kind() == kind && !self.away().contains(id),
        )
    }

    /// Those of one kind who have not left and can be reached.
    pub open spec fn reachable(&self, kind: ValueKind, open: Set<Id>) -> Seq<Id> {
        self.present(kind).filter(|id: Id| open.contains(id))
    }

    /// An empty list for at most `max_players` players.
    pub fn new(max_players: usize) -> (watchers: Self)
        ensures
            watchers.wf(),
            watchers.ids() == Seq::<Id>::empty(),
            watchers.values() == Map::<Id, Value>::empty(),
            watchers.away() == Set::<Id>::empty(),
            watchers.capacity() == max_players,
    {
        let watchers = Watchers {
            roster: Vec::new(),
            values: IdMap::new(),
            away: IdMap::new(),
            max_players,
        };
        assert(watchers.away() =~= Set::<Id>::empty());
        watchers
    }

    /// A list that holds the host.
    pub fn with_host_id(host_id: Id, max_players: usize) -> (watchers: Self)
        ensures
            watchers.wf(),
            watchers.ids() == seq![host_id],
            watchers.values() == Map::<Id, Value>::empty().insert(host_id, Value::Host),
            watchers.away() == Set::<Id>::empty(),
            watchers.capacity() == max_players,
    {
        let mut watchers = Watchers::new(max_players);
        watchers.roster.push(host_id);
        watchers.values.insert(host_id, Value::Host);
        assert(watchers.ids() =~= seq![host_id]);
        assert forall|id: Id| #[trigger]
            watchers.ids().contains(id) <==> watchers.values().contains_key(id) by {
            assert(watchers.ids()[0] == host_id);
        }
        watchers
    }

    /// Everyone but the host.
    pub open spec fn guests(&self) -> Seq<Id> {
        self.ids().filter(|id: Id| self.values()[id].spec_kind() != ValueKind::Host)
    }

    fn count_guests(&self) -> (count: usize)
        requires
            self.wf(),
        ensures
            count == self.guests().len(),
    {
        let ghost pred = |id: Id| self.values()[id].spec_kind() != ValueKind::Host;
        let mut count: usize = 0;
        let mut i: usize = 0;
        while i < self.roster.len()
            invariant
                self.wf(),
                i <= self.roster.len(),
                count <= i,
                pred == (|id: Id| self.values()[id].spec_kind() != ValueKind::Host),
                count == self.ids().take(i as int).filter(pred).len(),
            decreases self.roster.len() - i,
        {
            proof {
                lemma_filter_take(self.ids(), pred, i as int);
                assert(self.ids().contains(self.ids()[i as int]));
            }
            match self.values.get(self.roster[i]) {
                Some(value) => {
                    if value.kind() != ValueKind::Host {
                        count = count + 1;
                    }
                },
                None => {},
            }
            i = i + 1;
        }
        assert(self.ids().take(i as int) =~= self.ids());
        count
    }

    /// Why nobody can join under an identifier, if there is a reason: someone did, or as many as may play
    /// have joined.
    pub open spec fn join_error(&self, watcher_id: Id) -> Option<Error> {
        if self.values().contains_key(watcher_id) {
            Some(Error::IdInUse)
        } else if self.guests().len() >= self.capacity() {
            Some(Error::MaximumPlayers)
        } else {
            None
        }
    }

    /// Lets a participant join, unless there is something against it.
    pub fn add_watcher(&mut self, watcher_id: Id, value: Value) -> (result: Result<(), Error>)
        requires
            old(self).wf(),
        ensures
            final(self).wf(),
            match old(self).join_error(watcher_id) {
                Some(error) => result == Err::<(), Error>(error) && *final(self) == *old(self),
                None => {
                    &&& result == Ok::<(), Error>(())
                    &&& final(self).ids() == old(self).ids().push(watcher_id)
                    &&& final(self).values() == old(self).values().insert(watcher_id, value)
                    &&& final(self).away() == old(self).away()
                    &&& final(self).capacity() == old(self).capacity()
                },
            },
    {
        if self.values.contains_key(watcher_id) {
            return Err(Error::IdInUse);
        }
        if self.count_guests() >= self.max_players {
            return Err(Error::MaximumPlayers);
        }
        self.roster.push(watcher_id);
        self.values.insert(watcher_id, value);
        proof {
            let before = old(self).ids();
            assert forall|id: Id| #[trigger] self.away().contains(id) implies self.values().contains_key(id) by {
                assert(old(self).away().contains(id));
            }
            assert forall|id: Id| #[trigger]
                self.ids().contains(id) <==> self.values().contains_key(id) by {
                if before.contains(id) {
                    let i = choose|i: int| 0 <= i < before.len() && before[i] == id;
                    assert(self.ids()[i] == id);
                }
                if self.ids().contains(id) && id != watcher_id {
                    let i = choose|i: int| 0 <= i < self.ids().len() && self.ids()[i] == id;
                    assert(before[i] == id);
                }
                if id == watcher_id && !before.contains(id) {
                    assert(self.ids()[before.len() as int] == id);
                }
            }
            assert(!old(self).values().contains_key(watcher_id) ==> !before.contains(watcher_id));
            assert forall|i: int, j: int|
                0 <= i < j < self.ids().len() implies self.ids()[i] != self.ids()[j] by {
                assert(before.contains(before[i]));
            }
        }
        Ok(())
    }

    /// Turns a participant into `value`; nobody else can be changed.
    pub fn update_watcher_value(&mut self, watcher_id: Id, value: Value)
        requires
            old(self).wf(),
        ensures
            final(self).wf(),
            final(self).ids() == old(self).ids(),
            final(self).away() == old(self).away(),
            final(self).capacity() == old(self).capacity(),
            final(self).values() == if old(self).values().contains_key(watcher_id) {
                old(self).values().insert(watcher_id, value)
            } else {
                old(self).values()
            },
    {
        if self.values.contains_key(watcher_id) {
            self.values.insert(watcher_id, value);
        }
        assert forall|id: Id| #[trigger] self.away().contains(id) implies self.values().contains_key(id) by {
            assert(old(self).away().contains(id));
        }
        assert forall|id: Id| #[trigger]
            self.ids().contains(id) <==> self.values().contains_key(id) by {
            assert(old(self).ids().contains(id) <==> old(self).values().contains_key(id));
        }
    }

    /// What a participant is.
    pub fn get_watcher_value(&self, watcher_id: Id) -> (value: Option<Value>)
        ensures
            match value {
                Some(value) => self.values().contains_key(watcher_id) && value == self.values()[watcher_id],
                None => !self.values().contains_key(watcher_id),
            },
    {
        match self.values.get(watcher_id) {
            Some(value) => Some(value.clone()),
            None => None,
        }
    }

    /// Whether someone joined under this identifier.
    pub fn has_watcher(&self, watcher_id: Id) -> (joined: bool)
        ensures
            joined == self.values().contains_key(watcher_id),
    {
        self.values.contains_key(watcher_id)
    }

    /// The name of the team a participant plays in.
    pub fn get_team_name(&self, watcher_id: Id) -> (name: Option<String>)
        ensures
            name == self.spec_team_name(watcher_id),
    {
        match self.values.get(watcher_id) {
            Some(Value::Player(PlayerValue::Team { team_name, .. })) => Some(team_name.clone()),
            _ => None,
        }
    }

    /// The name of the team a participant plays in.
    pub open spec fn spec_team_name(&self, watcher_id: Id) -> Option<String> {
        if self.values().contains_key(watcher_id) {
            match self.values()[watcher_id] {
                Value::Player(PlayerValue::Team { team_name, .. }) => Some(team_name),
                _ => None,
            }
        } else {
            None
        }
    }

    /// Notes that a participant left, and tells whether that is news.
    pub fn watcher_left(&mut self, watcher_id: Id) -> (news: bool)
        requires
            old(self).wf(),
        ensures
            final(self).wf(),
            final(self).ids() == old(self).ids(),
            final(self).values() == old(self).values(),
            final(self).capacity() == old(self).capacity(),
            news <==> old(self).values().contains_key(watcher_id) && !old(self).away().contains(
                watcher_id,
            ),
            final(self).away() == if news {
                old(self).away().insert(watcher_id)
            } else {
                old(self).away()
            },
    {
        if self.values.contains_key(watcher_id) && !self.away.contains_key(watcher_id) {
            self.away.insert(watcher_id, ());
            assert(self.away() =~= old(self).away().insert(watcher_id));
            true
        } else {
            false
        }
    }

    /// Notes that a participant is back, and tells whether that is news.
    pub fn watcher_returned(&mut self, watcher_id: Id) -> (news: bool)
        requires
            old(self).wf(),
        ensures
            final(self).wf(),
            final(self).ids() == old(self).ids(),
            final(self).values() == old(self).values(),
            final(self).capacity() == old(self).capacity(),
            news <==> old(self).away().contains(watcher_id),
            final(self).away() == old(self).away().remove(watcher_id),
    {
        let news = self.away.remove(watcher_id).is_some();
        assert(self.away() =~= old(self).away().remove(watcher_id));
        news
    }

    /// Those of one kind who have not left.
    pub fn present_vec(&self, kind: ValueKind) -> (ids: Vec<Id>)
        requires
            self.wf(),
        ensures
            ids@ == self.present(kind),
    {
        let ghost pred = |id: Id|
            self.values()[id].spec_kind() == kind && !self.away().contains(id);
        let mut ids: Vec<Id> = Vec::new();
        let mut i: usize = 0;
        while i < self.roster.len()
            invariant
                self.wf(),
                i <= self.roster.len(),
                pred == (|id: Id|
                    self.values()[id].spec_kind() == kind && !self.away().contains(id)),
                ids@ == self.ids().take(i as int).filter(pred),
            decreases self.roster.len() - i,
        {
            let id = self.roster[i];
            proof {
                lemma_filter_take(self.ids(), pred, i as int);
                assert(self.ids().contains(self.ids()[i as int]));
            }
            match self.values.get(id) {
                Some(value) => {
                    if value.kind() == kind && !self.away.contains_key(id) {
                        ids.push(id);
                    }
                },
                None => {},
            }
            i = i + 1;
        }
        assert(self.ids().take(i as int) =~= self.ids());
        ids
    }

    /// How many of one kind have not left.
    pub fn specific_count(&self, kind: ValueKind) -> (count: usize)
        requires
            self.wf(),
        ensures
            count == self.present(kind).len(),
    {
        self.present_vec(kind).len()
    }

    /// Those of one kind who have not left and can be reached.
    pub fn specific_vec(&self, kind: ValueKind, tunnels: &Tunnels) -> (ids: Vec<Id>)
        requires
            self.wf(),
        ensures
            ids@ == self.reachable(kind, tunnels@),
    {
        tunnels.among(&self.present_vec(kind))
    }

    /// Everyone who can be reached.
    pub fn vec(&self, tunnels: &Tunnels) -> (ids: Vec<Id>)
        ensures
            ids@ == self.ids().filter(|id: Id| tunnels@.contains(id)),
    {
        tunnels.among(&self.roster)
    }

    /// Everyone with a part in the game who can be reached: the host and the players.
    pub open spec fn participants(&self, open: Set<Id>) -> Seq<Id> {
        self.ids().filter(
            |id: Id| open.contains(id) && self.values()[id].spec_kind() != ValueKind::Unassigned,
        )
    }

    /// Those with a part in the game are not without a name.
    pub proof fn lemma_participants(&self, open: Set<Id>)
        requires
            self.wf(),
        ensures
            forall|i: int|
                0 <= i < self.participants(open).len() ==> self.values()[#[trigger] self.participants(
                    open,
                )[i]].spec_kind() != ValueKind::Unassigned,
    {
        let pred = |id: Id| open.contains(id) && self.values()[id].spec_kind() != ValueKind::Unassigned;
        lemma_filter_no_duplicates(self.ids(), pred);
        assert forall|i: int| 0 <= i < self.participants(open).len() implies self.values()[#[trigger] self.participants(
            open,
        )[i]].spec_kind() != ValueKind::Unassigned by {
            assert(self.participants(open).contains(self.participants(open)[i]));
            assert(pred(self.participants(open)[i]));
        }
    }

    /// Everyone with a part in the game who can be reached: the host and the players.
    pub fn participants_vec(&self, tunnels: &Tunnels) -> (ids: Vec<Id>)
        requires
            self.wf(),
        ensures
            ids@ == self.participants(tunnels@),
            forall|i: int| 0 <= i < ids.len() ==> self.values().contains_key(#[trigger] ids[i]),
    {
        let ghost pred = |id: Id|
            tunnels@.contains(id) && self.values()[id].spec_kind() != ValueKind::Unassigned;
        let mut ids: Vec<Id> = Vec::new();
        let mut i: usize = 0;
        while i < self.roster.len()
            invariant
                self.wf(),
                i <= self.roster.len(),
                pred == (|id: Id|
                    tunnels@.contains(id) && self.values()[id].spec_kind() != ValueKind::Unassigned),
                ids@ == self.ids().take(i as int).filter(pred),
                forall|j: int| 0 <= j < ids.len() ==> self.values().contains_key(#[trigger] ids[j]),
            decreases self.roster.len() - i,
        {
            let id = self.roster[i];
            proof {
                lemma_filter_take(self.ids(), pred, i as int);
                assert(self.ids().contains(self.ids()[i as int]));
            }
            match self.values.get(id) {
                Some(value) => {
                    if tunnels.contains(id) && value.kind() != ValueKind::Unassigned {
                        ids.push(id);
                    }
                },
                None => {},
            }
            i = i + 1;
        }
        assert(self.ids().take(i as int) =~= self.ids());
        ids
    }

    /// What kind of participant someone is.
    pub fn kind_of(&self, watcher_id: Id) -> (kind: ValueKind)
        requires
            self.values().contains_key(watcher_id),
        ensures
            kind == self.values()[watcher_id].spec_kind(),
    {
        match self.values.get(watcher_id) {
            Some(value) => value.kind(),
            None => ValueKind::Unassigned,
        }
    }

    /// Those an audience is made of, as far as they can be reached.
    pub open spec fn audience(&self, to: Audience, open: Set<Id>) -> Seq<Id> {
        match to {
            Audience::Everyone => self.ids().filter(|id: Id| open.contains(id)),
            Audience::Kind(kind) => self.reachable(kind, open),
            Audience::One(id) => if open.contains(id) {
                seq![id]
            } else {
                seq![]
            },
        }
    }

    /// Those an audience is made of, as far as they can be reached.
    pub fn recipients(&self, to: Audience, tunnels: &Tunnels) -> (ids: Vec<Id>)
        requires
            self.wf(),
        ensures
            ids@ == self.audience(to, tunnels@),
    {
        match to {
            Audience::Everyone => self.vec(tunnels),
            Audience::Kind(kind) => self.specific_vec(kind, tunnels),
            Audience::One(id) => {
                let mut ids: Vec<Id> = Vec::new();
                if tunnels.contains(id) {
                    ids.push(id);
                }
                ids
            },
        }
    }
}

/// Nobody is among those who can be reached twice.
pub proof fn reachable_no_duplicates(watchers: Watchers, kind: ValueKind, open: Set<Id>)
    requires
        watchers.wf(),
    ensures
        watchers.present(kind).no_duplicates(),
        watchers.reachable(kind, open).no_duplicates(),
        forall|id: Id| #[trigger]
            watchers.reachable(kind, open).contains(id) <==> {
                &&& watchers.values().contains_key(id)
                &&& watchers.values()[id].spec_kind() == kind
                &&& !watchers.away().contains(id)
                &&& open.contains(id)
            },
{
    let pred = |id: Id| watchers.values()[id].spec_kind() == kind && !watchers.away().contains(id);
    lemma_filter_no_duplicates(watchers.ids(), pred);
    lemma_filter_no_duplicates(watchers.present(kind), |id: Id| open.contains(id));
    assert forall|id: Id| #[trigger] watchers.reachable(kind, open).contains(id) <==> {
        &&& watchers.values().contains_key(id)
        &&& watchers.values()[id].spec_kind() == kind
        &&& !watchers.away().contains(id)
        &&& open.contains(id)
    } by {
        assert(watchers.present(kind).contains(id) <==> watchers.ids().contains(id) && pred(id));
    }
}

/// The entries decide everything: participants that are kept come back as they were.
pub proof fn kept_participants_come_back(watchers: Watchers, back: Watchers, entries: Seq<(Id, Value, bool)>)
    requires
        watchers.wf(),
        back.wf(),
        watchers.has_entries(entries),
        back.has_entries(entries),
    ensures
        entries.map_values(|entry: (Id, Value, bool)| entry.0).no_duplicates(),
        back.ids() == watchers.ids(),
        back.values() == watchers.values(),
        back.away() == watchers.away(),
{
    assert forall|id: Id| #[trigger] watchers.ids().contains(id) implies back.values()[id] == watchers.values()[id]
        && back.away().contains(id) == watchers.away().contains(id) by {
        let i = choose|i: int| 0 <= i < watchers.ids().len() && watchers.ids()[i] == id;
        assert(entries[i].0 == id);
    }
    assert forall|id: Id| watchers.values().contains_key(id) <==> back.values().contains_key(id) by {
        assert(watchers.ids().contains(id) <==> watchers.values().contains_key(id));
        assert(back.ids().contains(id) <==> back.values().contains_key(id));
    }
    assert forall|id: Id| watchers.values().contains_key(id) implies back.values()[id] == watchers.values()[id] by {
        assert(watchers.ids().contains(id));
    }
    assert(back.values() =~= watchers.values());
    assert forall|id: Id| watchers.away().contains(id) <==> back.away().contains(id) by {
        assert(watchers.ids().contains(id) <==> watchers.values().contains_key(id));
        assert(back.ids().contains(id) <==> back.values().contains_key(id));
    }
    assert(back.away() =~= watchers.away());
}

/// Those present are those of the kind who joined and did not leave, each once; they can be reached where
/// there is a connection.
pub proof fn the_present_have_not_left(watchers: Watchers, kind: ValueKind, open: Set<Id>, id: Id)
    requires
        watchers.wf(),
    ensures
        watchers.present(kind).no_duplicates(),
        watchers.present(kind).contains(id) <==> watchers.values().contains_key(id)
            && watchers.values()[id].spec_kind() == kind && !watchers.away().contains(id),
        watchers.reachable(kind, open).contains(id) <==> watchers.present(kind).contains(id) && open.contains(id),
        watchers.values().contains_key(id) ==> {
            let value = watchers.values()[id];
            &&& value.spec_kind() == ValueKind::Host <==> value is Host
            &&& value.spec_kind() == ValueKind::Player <==> value is Player
            &&& value.spec_kind() == ValueKind::Unassigned <==> value is Unassigned
        },
{
    reachable_no_duplicates(watchers, kind, open);
    let pred = |id: Id| watchers.values()[id].spec_kind() == kind && !watchers.away().contains(id);
    lemma_filter_no_duplicates(watchers.ids(), pred);
    assert(watchers.present(kind).contains(id) <==> watchers.ids().contains(id) && pred(id));
}

/// Someone who leaves is one less present, and someone who returns one more; nobody else is concerned.
pub proof fn leaving_and_returning_count_once(before: Watchers, after: Watchers, id: Id, kind: ValueKind)
    requires
        before.wf(),
        after.wf(),
        after.ids() == before.ids(),
        after.values() == before.values(),
        after.away() == before.away().insert(id),
        !before.away().contains(id),
        before.values().contains_key(id),
    ensures
        before.values()[id].spec_kind() == kind ==> before.present(kind).len() == after.present(kind).len() + 1,
        before.values()[id].spec_kind() != kind ==> before.present(kind).len() == after.present(kind).len(),
{
    the_present_have_not_left(before, kind, Set::empty(), id);
    the_present_have_not_left(after, kind, Set::empty(), id);
    assert forall|other: Id| before.present(kind).to_set().contains(other) <==> (after.present(kind).to_set().contains(
        other,
    ) || (other == id && before.values()[id].spec_kind() == kind)) by {
        the_present_have_not_left(before, kind, Set::empty(), other);
        the_present_have_not_left(after, kind, Set::empty(), other);
    }
    before.present(kind).unique_seq_to_set();
    after.present(kind).unique_seq_to_set();
    if before.values()[id].spec_kind() == kind {
        assert(before.present(kind).to_set() =~= after.present(kind).to_set().insert(id));
    } else {
        assert(before.present(kind).to_set() =~= after.present(kind).to_set());
    }
}

/// Those with a part in the game are the host and the players who can be reached.
pub proof fn participants_have_a_part(watchers: Watchers, open: Set<Id>, id: Id)
    requires
        watchers.wf(),
    ensures
        watchers.participants(open).no_duplicates(),
        watchers.participants(open).contains(id) <==> watchers.values().contains_key(id) && open.contains(id) && !(
        watchers.values()[id] is Unassigned),
{
    let pred = |id: Id| open.contains(id) && watchers.values()[id].spec_kind() != ValueKind::Unassigned;
    lemma_filter_no_duplicates(watchers.ids(), pred);
    assert(watchers.participants(open).contains(id) <==> watchers.ids().contains(id) && pred(id));
}

/// A message reaches those it is meant for who have a connection, each once, and nobody else.
pub proof fn messages_reach_their_audience(watchers: Watchers, to: Audience, open: Set<Id>, id: Id)
    requires
        watchers.wf(),
    ensures
        watchers.audience(to, open).no_duplicates(),
        watchers.audience(to, open).contains(id) ==> open.contains(id),
        to is Everyone ==> (watchers.audience(to, open).contains(id) <==> watchers.values().contains_key(id)
            && open.contains(id)),
        to matches Audience::Kind(kind) ==> (watchers.audience(to, open).contains(id) <==> watchers.values().contains_key(
            id,
        ) && watchers.values()[id].spec_kind() == kind && !watchers.away().contains(id) && open.contains(id)),
        to matches Audience::One(one) ==> (watchers.audience(to, open).contains(id) <==> id == one && open.contains(id)),
{
    lemma_filter_no_duplicates(watchers.ids(), |id: Id| open.contains(id));
    match to {
        Audience::Everyone => {},
        Audience::Kind(kind) => {
            reachable_no_duplicates(watchers, kind, open);
        },
        Audience::One(one) => {
            if open.contains(one) {
                assert(watchers.audience(to, open)[0] == one);
            }
        },
    }
}

/// Everyone but the host takes a seat: whoever joins as the host takes none, all others one.
pub proof fn guests_take_seats(before: Watchers, after: Watchers, id: Id, value: Value)
    requires
        before.wf(),
        after.wf(),
        !before.values().contains_key(id),
        after.ids() == before.ids().push(id),
        after.values() == before.values().insert(id, value),
    ensures
        value is Host ==> after.guests().len() == before.guests().len(),
        !(value is Host) ==> after.guests().len() == before.guests().len() + 1,
        before.ids().len() == 0 ==> before.guests().len() == 0,
{
    let pred = |id: Id| before.values()[id].spec_kind() != ValueKind::Host;
    let after_pred = |id: Id| after.values()[id].spec_kind() != ValueKind::Host;
    let ids = before.ids();
    assert(!ids.contains(id));
    lemma_same_filter(ids, pred, after_pred);
    lemma_filter_take(after.ids(), after_pred, ids.len() as int);
    assert(after.ids().take(ids.len() as int) =~= ids);
    assert(after.ids().take(ids.len() as int + 1) =~= after.ids());
    if ids.len() == 0 {
        reveal(Seq::filter);
    }
}

proof fn lemma_same_filter(ids: Seq<Id>, a: spec_fn(Id) -> bool, b: spec_fn(Id) -> bool)
    requires
        forall|i: int| 0 <= i < ids.len() ==> a(#[trigger] ids[i]) == b(ids[i]),
    ensures
        ids.filter(a) == ids.filter(b),
    decreases ids.len(),
{
    reveal(Seq::filter);
    if ids.len() > 0 {
        let rest = ids.drop_last();
        assert forall|i: int| 0 <= i < rest.len() implies a(#[trigger] rest[i]) == b(rest[i]) by {
            assert(rest[i] == ids[i]);
        }
        assert(a(ids[ids.len() - 1]) == b(ids[ids.len() - 1]));
        lemma_same_filter(rest, a, b);
    }
}

/// Nobody joins twice, and nobody joins a game without a free seat; everyone else does.
pub proof fn who_may_join(watchers: Watchers, id: Id)
    ensures
        watchers.join_error(id) is None <==> !watchers.values().contains_key(id) && watchers.guests().len()
            < watchers.capacity(),
        watchers.join_error(id) == Some(Error::IdInUse) <==> watchers.values().contains_key(id),
        watchers.join_error(id) == Some(Error::MaximumPlayers) <==> !watchers.values().contains_key(id)
            && watchers.guests().len() >= watchers.capacity(),
{
}

/// Those present are listed in the order in which they joined, and so are those who can be reached and those
/// with a part in the game.
pub proof fn lists_keep_the_order_of_joining(watchers: Watchers, kind: ValueKind, open: Set<Id>, i: int, j: int)
    requires
        watchers.wf(),
        0 <= i < j,
    ensures
        j < watchers.present(kind).len() ==> exists|p: int, q: int|
            0 <= p < q < watchers.ids().len() && #[trigger] watchers.ids()[p] == watchers.present(kind)[i]
                && #[trigger] watchers.ids()[q] == watchers.present(kind)[j],
        j < watchers.reachable(kind, open).len() ==> exists|p: int, q: int|
            0 <= p < q < watchers.present(kind).len() && #[trigger] watchers.present(kind)[p] == watchers.reachable(
                kind,
                open,
            )[i] && #[trigger] watchers.present(kind)[q] == watchers.reachable(kind, open)[j],
        j < watchers.participants(open).len() ==> exists|p: int, q: int|
            0 <= p < q < watchers.ids().len() && #[trigger] watchers.ids()[p] == watchers.participants(open)[i]
                && #[trigger] watchers.ids()[q] == watchers.participants(open)[j],
{
    if j < watchers.present(kind).len() {
        let places = lemma_filter_keeps_order(
            watchers.ids(),
            |id: Id| watchers.values()[id].spec_kind() == kind && !watchers.away().contains(id),
            i,
            j,
        );
        assert(watchers.ids()[places.0] == watchers.present(kind)[i]);
        assert(watchers.ids()[places.1] == watchers.present(kind)[j]);
    }
    if j < watchers.reachable(kind, open).len() {
        let places = lemma_filter_keeps_order(watchers.present(kind), |id: Id| open.contains(id), i, j);
        assert(watchers.present(kind)[places.0] == watchers.reachable(kind, open)[i]);
        assert(watchers.present(kind)[places.1] == watchers.reachable(kind, open)[j]);
    }
    if j < watchers.participants(open).len() {
        let places = lemma_filter_keeps_order(
            watchers.ids(),
            |id: Id| open.contains(id) && watchers.values()[id].spec_kind() != ValueKind::Unassigned,
            i,
            j,
        );
        assert(watchers.ids()[places.0] == watchers.participants(open)[i]);
        assert(watchers.ids()[places.1] == watchers.participants(open)[j]);
    }
}

/// An identifier is read back from its text.
pub proof fn identifiers_are_read_back(id: Id, text: String, read: Option<Id>, given: &str)
    requires
        call_ensures(Id::to_text, (&id,), text),
        given@ == text@,
        call_ensures(Id::from_text, (given,), read),
    ensures
        read == Some(id),
{
    numbers_are_read_back(id.0, id.0);
    if let Some(other) = read {
        numbers_are_read_back(id.0, other.0);
    }
}

/// Those of a kind who are present are counted and listed alike, and what anyone is can be asked for.
pub proof fn the_present_are_counted(
    watchers: Watchers,
    kind: ValueKind,
    count: usize,
    list: Vec<Id>,
    id: Id,
    value: Option<Value>,
)
    requires
        watchers.wf(),
        call_ensures(Watchers::specific_count, (&watchers, kind), count),
        call_ensures(Watchers::present_vec, (&watchers, kind), list),
        call_ensures(Watchers::get_watcher_value, (&watchers, id), value),
    ensures
        count == list@.len(),
        list@.no_duplicates(),
        list@.contains(id) <==> value is Some && (value->0).spec_kind() == kind && !watchers.away().contains(id),
        value is Some <==> watchers.values().contains_key(id),
        value matches Some(value) ==> value == watchers.values()[id],
{
    the_present_have_not_left(watchers, kind, Set::empty(), id);
}

} // verus!
