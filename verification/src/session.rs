//! Open connections, and what is to be sent over them.
use std::time::Duration;

use vstd::prelude::*;

use crate::id_map::IdMap;
use crate::seqs::lemma_filter_take;
use crate::names::NameStyle;
use crate::teams::TeamManager;
use crate::time::Timestamp;
use crate::watcher::{Id, ValueKind, Watchers};
use crate::{AlarmMessage, SyncMessage, UpdateMessage};

verus! {

/// The participants that have an open connection.
#[derive(Debug)]
pub struct Tunnels {
    open: IdMap<()>,
}

impl View for Tunnels {
    type V = Set<Id>;

    closed spec fn view(&self) -> Set<Id> {
        self.open@.dom()
    }
}

impl Tunnels {
    /// No open connection.
    pub fn new() -> (tunnels: Self)
        ensures
            tunnels@ == Set::<Id>::empty(),
    {
        let tunnels = Tunnels { open: IdMap::new() };
        assert(tunnels@ =~= Set::<Id>::empty());
        tunnels
    }

    /// Notes that a connection was opened.
    pub fn insert(&mut self, id: Id)
        ensures
            final(self)@ == old(self)@.insert(id),
    {
        self.open.insert(id, ());
        assert(self@ =~= old(self)@.insert(id));
    }

    /// Notes that a connection was closed.
    pub fn remove(&mut self, id: Id)
        ensures
            final(self)@ == old(self)@.remove(id),
    {
        self.open.remove(id);
        assert(self@ =~= old(self)@.remove(id));
    }

    /// Whether a participant can be reached.
    pub fn contains(&self, id: Id) -> (open: bool)
        ensures
            open == self@.contains(id),
    {
        self.open.contains_key(id)
    }

    /// Those of `ids` who can be reached, in the same order.
    pub fn among(&self, ids: &Vec<Id>) -> (reachable: Vec<Id>)
        ensures
            reachable@ == ids@.filter(|id: Id| self@.contains(id)),
    {
        let ghost pred = |id: Id| self@.contains(id);
        let mut reachable: Vec<Id> = Vec::new();
        let mut i: usize = 0;
        while i < ids.len()
            invariant
                i <= ids.len(),
                pred == (|id: Id| self@.contains(id)),
                reachable@ == ids@.take(i as int).filter(pred),
            decreases ids.len() - i,
        {
            proof {
                lemma_filter_take(ids@, pred, i as int);
            }
            if self.contains(ids[i]) {
                reachable.push(ids[i]);
            }
            i = i + 1;
        }
        assert(ids@.take(i as int) =~= ids@);
        reachable
    }
}

/// Who a message is for.
#[derive(Copy, Clone, Debug, PartialEq, Eq, Structural)]
pub enum Audience {
    /// Every participant.
    Everyone,
    /// The participants of one kind who have not left.
    Kind(ValueKind),
    /// One participant.
    One(Id),
}

/// Something to be done outside the game.
#[allow(inconsistent_fields)]
#[derive(Debug)]
pub enum Effect {
    /// Tell an audience what is new.
    Send {
        /// Who is told.
        to: Audience,
        /// What is new.
        message: UpdateMessage,
    },
    /// Tell a participant how things stand.
    Sync {
        /// Who is told.
        to: Id,
        /// How things stand.
        message: SyncMessage,
    },
    /// Close a participant's connection.
    Close(Id),
    /// Hand an alarm back after some time.
    Schedule {
        /// What to hand back.
        alarm: AlarmMessage,
        /// When.
        after: Duration,
    },
}

/// What surrounds a slide while it is shown.
pub struct Stage<'a> {
    /// Everyone who takes part.
    pub watchers: &'a Watchers,
    /// Who can be reached.
    pub tunnels: &'a Tunnels,
    /// The teams, where there are any.
    pub team_manager: Option<&'a TeamManager<NameStyle>>,
    /// The current time.
    pub now: Timestamp,
    /// The number of the slide, from zero on.
    pub index: usize,
    /// The number of slides.
    pub count: usize,
}

impl<'a> Stage<'a> {
    /// Participants and teams are in order.
    pub open spec fn wf(self) -> bool {
        &&& self.watchers.wf()
        &&& self.team_manager is Some ==> self.team_manager->0.wf()
    }
}

} // verus!
