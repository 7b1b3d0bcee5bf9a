//! Points: who earned how many, and who leads.
use vstd::prelude::*;

use crate::id_map::IdMap;
use crate::watcher::Id;
use crate::TruncatedVec;

verus! {

/// How many standings are shown at most.
pub const SHOWN_SCORES: usize = 50;

/// The points of a participant, and how many lead the participant.
#[derive(Copy, Clone, Debug, PartialEq, Eq, Structural)]
pub struct ScoreMessage {
    /// The points so far.
    pub points: u64,
    /// The place in the standings, from zero on.
    pub position: usize,
}

/// What the host sees at the end.
#[derive(Debug)]
pub struct HostSummary {
    /// How many took part.
    pub total_players: usize,
    /// The points of each, round by round.
    pub player_scores: Vec<(Id, Vec<u64>)>,
    /// Of each round how many earned points, and how many took part.
    pub correctness_stats: Vec<(usize, usize)>,
}

/// The points of every round, and the standings before and after the last one.
#[derive(Debug)]
pub struct Leaderboard {
    rounds: Vec<Vec<(Id, u64)>>,
    totals: IdMap<u64>,
    order: Vec<Id>,
    current: Vec<(Id, u64)>,
    prior: Vec<(Id, u64)>,
}

/// The sum, or the largest number where the sum is larger.
pub open spec fn capped_sum(a: u64, b: u64) -> u64 {
    if a + b <= u64::MAX {
        (a + b) as u64
    } else {
        u64::MAX
    }
}

/// `totals` with the points of one round added.
pub open spec fn tallied(totals: Map<Id, u64>, round: Seq<(Id, u64)>) -> Map<Id, u64>
    decreases round.len(),
{
    if round.len() == 0 {
        totals
    } else {
        let before = tallied(totals, round.drop_last());
        let (id, points) = round.last();
        before.insert(
            id,
            if before.contains_key(id) {
                capped_sum(before[id], points)
            } else {
                points
            },
        )
    }
}

/// Whether `list` holds everyone in `totals` once, those with more points first.
pub open spec fn is_standing(totals: Map<Id, u64>, list: Seq<(Id, u64)>) -> bool {
    &&& is_ranking(list)
    &&& forall|i: int|
        0 <= i < list.len() ==> totals.contains_key((#[trigger] list[i]).0) && totals[list[i].0] == list[i].1
    &&& forall|id: Id| #[trigger] totals.contains_key(id) ==> exists|i: int| 0 <= i < list.len() && (#[trigger] list[i]).0 == id
}

/// Whether nobody is listed twice, and those with more points are listed first.
pub open spec fn is_ranking(list: Seq<(Id, u64)>) -> bool {
    &&& forall|i: int, j: int| 0 <= i < j < list.len() ==> (#[trigger] list[i]).0 != (#[trigger] list[j]).0
    &&& forall|i: int, j: int| 0 <= i < j < list.len() ==> (#[trigger] list[i]).1 >= (#[trigger] list[j]).1
}

/// How many at the front of a ranking have at least so many points.
pub open spec fn place(list: Seq<(Id, u64)>, points: u64) -> nat
    decreases list.len(),
{
    if list.len() == 0 || list[0].1 < points {
        0
    } else {
        1 + place(list.drop_first(), points)
    }
}

/// The ranking with one more entry, behind all that have at least as many points.
pub open spec fn placed(list: Seq<(Id, u64)>, entry: (Id, u64)) -> Seq<(Id, u64)> {
    list.insert(place(list, entry.1) as int, entry)
}

/// The standings: those with more points first, and whoever got an entry first among those with as
/// many.
pub open spec fn ranked(entrants: Seq<Id>, totals: Map<Id, u64>) -> Seq<(Id, u64)>
    decreases entrants.len(),
{
    if entrants.len() == 0 {
        Seq::empty()
    } else {
        placed(ranked(entrants.drop_last(), totals), (entrants.last(), totals[entrants.last()]))
    }
}

/// The entrants with those of one more round, each once.
pub open spec fn enlisted(entrants: Seq<Id>, round: Seq<(Id, u64)>) -> Seq<Id>
    decreases round.len(),
{
    if round.len() == 0 {
        entrants
    } else {
        let before = enlisted(entrants, round.drop_last());
        if before.contains(round.last().0) {
            before
        } else {
            before.push(round.last().0)
        }
    }
}

/// The entrants of all rounds.
pub open spec fn all_entrants(history: Seq<Seq<(Id, u64)>>) -> Seq<Id>
    decreases history.len(),
{
    if history.len() == 0 {
        Seq::empty()
    } else {
        enlisted(all_entrants(history.drop_last()), history.last())
    }
}

/// The points of all rounds.
pub open spec fn all_totals(history: Seq<Seq<(Id, u64)>>) -> Map<Id, u64>
    decreases history.len(),
{
    if history.len() == 0 {
        Map::empty()
    } else {
        tallied(all_totals(history.drop_last()), history.last())
    }
}

/// The standings after all rounds.
pub open spec fn all_standings(history: Seq<Seq<(Id, u64)>>) -> Seq<(Id, u64)> {
    ranked(all_entrants(history), all_totals(history))
}

proof fn lemma_place(list: Seq<(Id, u64)>, points: u64, at: int)
    requires
        0 <= at <= list.len(),
        forall|i: int| 0 <= i < at ==> (#[trigger] list[i]).1 >= points,
        at < list.len() ==> list[at].1 < points,
    ensures
        place(list, points) == at,
    decreases list.len(),
{
    if at > 0 {
        assert(list[0].1 >= points);
        let rest = list.drop_first();
        assert forall|i: int| 0 <= i < at - 1 implies (#[trigger] rest[i]).1 >= points by {
            assert(rest[i] == list[i + 1]);
        }
        lemma_place(rest, points, at - 1);
    }
}

/// Whether `id` is listed.
pub open spec fn has_entry(list: Seq<(Id, u64)>, id: Id) -> bool {
    exists|i: int| 0 <= i < list.len() && (#[trigger] list[i]).0 == id
}

/// Puts an entry behind all that have at least as many points.
fn insert_entry(list: &mut Vec<(Id, u64)>, id: Id, points: u64)
    requires
        is_ranking(old(list)@),
        !has_entry(old(list)@, id),
    ensures
        is_ranking(final(list)@),
        forall|other: Id| #[trigger] has_entry(final(list)@, other) <==> has_entry(old(list)@, other) || other == id,
        final(list)@ == placed(old(list)@, (id, points)),
        forall|i: int|
            0 <= i < final(list)@.len() ==> (#[trigger] final(list)@[i]) == (id, points) || old(list)@.contains(
                final(list)@[i],
            ),
{
    let mut at: usize = 0;
    while at < list.len() && list[at].1 >= points
        invariant
            at <= list.len(),
            list@ == old(list)@,
            forall|i: int| 0 <= i < at ==> (#[trigger] list[i]).1 >= points,
        ensures
            at <= list.len(),
            list@ == old(list)@,
            forall|i: int| 0 <= i < at ==> (#[trigger] list[i]).1 >= points,
            at < list.len() ==> list[at as int].1 < points,
        decreases list.len() - at,
    {
        at = at + 1;
    }
    let ghost before = list@;
    list.insert(at, (id, points));
    proof {
        lemma_place(before, points, at as int);
        let after = list@;
        assert forall|i: int| 0 <= i < after.len() implies (#[trigger] after[i]) == (id, points) || before.contains(
            after[i],
        ) by {
            if i < at {
                assert(after[i] == before[i]);
            } else if i > at {
                assert(after[i] == before[i - 1]);
            }
        }
        assert forall|i: int, j: int| 0 <= i < j < after.len() implies (#[trigger] after[i]).0 != (
        #[trigger] after[j]).0 && after[i].1 >= after[j].1 by {
            let a = if i < at { i } else { i - 1 };
            let b = if j < at { j } else { j - 1 };
            if i == at {
                assert(after[j] == before[b]);
                assert(has_entry(before, before[b].0));
                assert(before[at as int].1 >= before[b].1);
            } else if j == at {
                assert(after[i] == before[a]);
                assert(has_entry(before, before[a].0));
            } else {
                assert(after[i] == before[a] && after[j] == before[b]);
            }
        }
        assert forall|other: Id| #[trigger] has_entry(after, other) <==> has_entry(before, other) || other == id by {
            if has_entry(before, other) {
                let i = choose|i: int| 0 <= i < before.len() && (#[trigger] before[i]).0 == other;
                if i < at {
                    assert(after[i].0 == other);
                } else {
                    assert(after[i + 1].0 == other);
                }
            }
            assert(after[at as int].0 == id);
            if has_entry(after, other) && other != id {
                let i = choose|i: int| 0 <= i < after.len() && (#[trigger] after[i]).0 == other;
                if i < at {
                    assert(before[i].0 == other);
                } else {
                    assert(before[i - 1].0 == other);
                }
            }
        }
    }
}

/// The points that `id` earned in a round: those of the first entry, none without one.
pub open spec fn earned(round: Seq<(Id, u64)>, id: Id) -> u64
    decreases round.len(),
{
    if round.len() == 0 {
        0
    } else if round[0].0 == id {
        round[0].1
    } else {
        earned(round.drop_first(), id)
    }
}

/// The points as they are shown: one for any, where they are to be kept quiet.
pub open spec fn shown_points(points: u64, show_real_score: bool) -> u64 {
    if show_real_score || points == 0 {
        points
    } else {
        1
    }
}

/// How many entries of a round have points.
pub open spec fn scorers(round: Seq<(Id, u64)>) -> nat
    decreases round.len(),
{
    if round.len() == 0 {
        0
    } else {
        scorers(round.drop_last()) + if round.last().1 > 0 { 1nat } else { 0nat }
    }
}

/// The rounds as sequences.
pub open spec fn histories(rounds: Seq<Vec<(Id, u64)>>) -> Seq<Seq<(Id, u64)>> {
    rounds.map_values(|round: Vec<(Id, u64)>| round@)
}

impl Default for Leaderboard {
    fn default() -> (leaderboard: Self)
        ensures
            leaderboard.wf(),
            leaderboard.history() == Seq::<Seq<(Id, u64)>>::empty(),
            leaderboard.totals() == Map::<Id, u64>::empty(),
            leaderboard.standings() == Seq::<(Id, u64)>::empty(),
            leaderboard.prior_standings() == Seq::<(Id, u64)>::empty(),
            leaderboard.entrants() == Seq::<Id>::empty(),
    {
        Leaderboard::new()
    }
}

impl Leaderboard {
    /// The points of each round.
    pub closed spec fn history(&self) -> Seq<Seq<(Id, u64)>> {
        histories(self.rounds@)
    }

    /// The points of everyone so far.
    pub closed spec fn totals(&self) -> Map<Id, u64> {
        self.totals@
    }

    /// Everyone with points, in the order in which they got an entry.
    pub closed spec fn entrants(&self) -> Seq<Id> {
        self.order@
    }

    /// The standings.
    pub closed spec fn standings(&self) -> Seq<(Id, u64)> {
        self.current@
    }

    /// The standings before the last round.
    pub closed spec fn prior_standings(&self) -> Seq<(Id, u64)> {
        self.prior@
    }

    /// All agrees with the rounds.
    pub open spec fn wf(&self) -> bool {
        &&& self.entrants() == all_entrants(self.history())
        &&& self.totals() == all_totals(self.history())
        &&& self.prior_standings() == if self.history().len() == 0 {
            Seq::empty()
        } else {
            all_standings(self.history().drop_last())
        }
        &&& self.entrants().no_duplicates()
        &&& self.entrants().to_set() == self.totals().dom()
        &&& is_standing(self.totals(), self.standings())
        &&& self.standings() == ranked(self.entrants(), self.totals())
    }

    /// No points.
    pub fn new() -> (leaderboard: Self)
        ensures
            leaderboard.wf(),
            leaderboard.history() == Seq::<Seq<(Id, u64)>>::empty(),
            leaderboard.totals() == Map::<Id, u64>::empty(),
            leaderboard.standings() == Seq::<(Id, u64)>::empty(),
            leaderboard.prior_standings() == Seq::<(Id, u64)>::empty(),
            leaderboard.entrants() == Seq::<Id>::empty(),
    {
        let leaderboard = Leaderboard {
            rounds: Vec::new(),
            totals: IdMap::new(),
            order: Vec::new(),
            current: Vec::new(),
            prior: Vec::new(),
        };
        assert(leaderboard.history() =~= Seq::<Seq<(Id, u64)>>::empty());
        assert(leaderboard.entrants().to_set() =~= leaderboard.totals().dom());
        leaderboard
    }

    /// Adds the points of one round.
    pub fn add_scores(&mut self, scores: &Vec<(Id, u64)>)
        requires
            old(self).wf(),
        ensures
            final(self).wf(),
            final(self).history() == old(self).history().push(scores@),
            final(self).totals() == tallied(old(self).totals(), scores@),
            final(self).entrants() == enlisted(old(self).entrants(), scores@),
            final(self).prior_standings() == old(self).standings(),
    {
        let mut round: Vec<(Id, u64)> = Vec::new();
        let mut i: usize = 0;
        while i < scores.len()
            invariant
                i <= scores.len(),
                round@ == scores@.take(i as int),
                self.rounds == old(self).rounds,
                self.current == old(self).current,
                self.prior == old(self).prior,
                self.totals@ == tallied(old(self).totals(), scores@.take(i as int)),
                self.order@ == enlisted(old(self).entrants(), scores@.take(i as int)),
                self.order@.no_duplicates(),
                forall|id: Id| #[trigger] self.order@.contains(id) <==> self.totals@.contains_key(id),
            decreases scores.len() - i,
        {
            let (id, points) = scores[i];
            let ghost order_before = self.order@;
            let total: u64 = match self.totals.get(id) {
                Some(total) => if *total <= u64::MAX - points {
                    *total + points
                } else {
                    u64::MAX
                },
                None => {
                    self.order.push(id);
                    points
                },
            };
            self.totals.insert(id, total);
            round.push((id, points));
            proof {
                assert(scores@.take(i + 1).drop_last() =~= scores@.take(i as int));
                assert(round@ =~= scores@.take(i + 1));
                assert forall|other: Id| #[trigger] self.order@.contains(other) <==> self.totals@.contains_key(other) by {
                    assert(order_before.contains(other) ==> self.order@.contains(other)) by {
                        if order_before.contains(other) {
                            let j = choose|j: int| 0 <= j < order_before.len() && order_before[j] == other;
                            assert(self.order@[j] == other);
                        }
                    }
                    if self.order@.contains(other) && !order_before.contains(other) {
                        let j = choose|j: int| 0 <= j < self.order@.len() && self.order@[j] == other;
                        if j < order_before.len() {
                            assert(order_before[j] == other);
                        }
                    }
                    if other == id && !order_before.contains(other) {
                        assert(self.order@[order_before.len() as int] == id);
                    }
                }
                assert forall|j: int, k: int| 0 <= j < k < self.order@.len() implies self.order@[j] != self.order@[k] by {
                    assert(order_before.contains(order_before[j]));
                }
            }
            i = i + 1;
        }
        assert(scores@.take(i as int) =~= scores@);
        let standings = self.sorted();
        self.rounds.push(round);
        std::mem::swap(&mut self.prior, &mut self.current);
        self.current = standings;
        proof {
            assert(self.history() =~= old(self).history().push(scores@));
            assert(self.history().drop_last() =~= old(self).history());
            assert(self.entrants().to_set() =~= self.totals().dom()) by {
                assert forall|id: Id| self.entrants().to_set().contains(id) <==> self.totals().dom().contains(id) by {
                    assert(self.order@.contains(id) <==> self.totals@.contains_key(id));
                }
            }
        }
    }

    fn sorted(&self) -> (list: Vec<(Id, u64)>)
        requires
            self.order@.no_duplicates(),
            forall|id: Id| #[trigger] self.order@.contains(id) <==> self.totals@.contains_key(id),
        ensures
            is_standing(self.totals(), list@),
            list@ == ranked(self.entrants(), self.totals()),
    {
        let mut list: Vec<(Id, u64)> = Vec::new();
        let mut n: usize = 0;
        while n < self.order.len()
            invariant
                n <= self.order.len(),
                self.order@.no_duplicates(),
                forall|id: Id| #[trigger] self.order@.contains(id) <==> self.totals@.contains_key(id),
                is_ranking(list@),
                list@ == ranked(self.order@.take(n as int), self.totals@),
                forall|id: Id| #[trigger] has_entry(list@, id) <==> self.order@.take(n as int).contains(id),
                forall|i: int| 0 <= i < list.len() ==> self.totals@[(#[trigger] list[i]).0] == list[i].1,
            decreases self.order.len() - n,
        {
            let id = self.order[n];
            let ghost before = list@;
            let ghost seen = self.order@.take(n as int);
            assert(self.order@.contains(self.order@[n as int]));
            match self.totals.get(id) {
                None => {},
                Some(total) => {
                    proof {
                        if has_entry(before, id) {
                            let k = choose|k: int| 0 <= k < seen.len() && seen[k] == id;
                            assert(self.order@[k] == self.order@[n as int]);
                        }
                    }
                    insert_entry(&mut list, id, *total);
                    assert(self.order@.take(n + 1).drop_last() =~= seen);
                    assert forall|i: int| 0 <= i < list.len() implies self.totals@[(#[trigger] list[i]).0] == list[i].1 by {
                        if list@[i] != (id, *total) {
                            let k = choose|k: int| 0 <= k < before.len() && before[k] == list@[i];
                            assert(self.totals@[before[k].0] == before[k].1);
                        }
                    }
                    assert forall|other: Id| #[trigger] has_entry(list@, other) <==> self.order@.take(n + 1).contains(
                        other,
                    ) by {
                        let longer = self.order@.take(n + 1);
                        assert(longer =~= seen.push(id));
                        assert(has_entry(before, other) <==> seen.contains(other));
                        if seen.contains(other) {
                            let k = choose|k: int| 0 <= k < seen.len() && seen[k] == other;
                            assert(longer[k] == other);
                        }
                        assert(longer[n as int] == id);
                        if longer.contains(other) && other != id {
                            let k = choose|k: int| 0 <= k < longer.len() && longer[k] == other;
                            assert(seen[k] == other);
                        }
                    }
                },
            }
            n = n + 1;
        }
        proof {
            assert(self.order@.take(n as int) =~= self.order@);
            assert forall|i: int| 0 <= i < list.len() implies self.totals().contains_key((#[trigger] list@[i]).0)
                && self.totals()[list@[i].0] == list@[i].1 by {
                assert(has_entry(list@, list@[i].0));
                assert(self.order@.contains(list@[i].0));
                assert(self.totals@[list[i].0] == list[i].1);
            }
            assert forall|id: Id| #[trigger] self.totals().contains_key(id) implies exists|i: int|
                0 <= i < list.len() && (#[trigger] list@[i]).0 == id by {
                assert(self.order@.contains(id));
                assert(has_entry(list@, id));
            }
        }
        list
    }

    /// The rounds.
    pub fn into_rounds(self) -> (rounds: Vec<Vec<(Id, u64)>>)
        ensures
            histories(rounds@) == self.history(),
    {
        self.rounds
    }

    /// The points of these rounds.
    pub fn from_rounds(rounds: &Vec<Vec<(Id, u64)>>) -> (leaderboard: Self)
        ensures
            leaderboard.wf(),
            leaderboard.history() == histories(rounds@),
    {
        let mut leaderboard = Leaderboard::new();
        let mut i: usize = 0;
        assert(leaderboard.history() =~= histories(rounds@).take(0));
        while i < rounds.len()
            invariant
                i <= rounds.len(),
                leaderboard.wf(),
                leaderboard.history() == histories(rounds@).take(i as int),
            decreases rounds.len() - i,
        {
            leaderboard.add_scores(&rounds[i]);
            i = i + 1;
            assert(leaderboard.history() =~= histories(rounds@).take(i as int));
        }
        assert(leaderboard.history() =~= histories(rounds@));
        leaderboard
    }

    /// The points and the place of a participant; `None` without an entry.
    pub fn score(&self, watcher_id: Id) -> (score: Option<ScoreMessage>)
        requires
            self.wf(),
        ensures
            self.is_score(watcher_id, score),
    {
        let mut i: usize = 0;
        while i < self.current.len()
            invariant
                i <= self.current.len(),
                self.wf(),
                forall|j: int| 0 <= j < i ==> (#[trigger] self.current[j]).0 != watcher_id,
            decreases self.current.len() - i,
        {
            if self.current[i].0 == watcher_id {
                let (_, points) = self.current[i];
                assert(self.standings()[i as int] == (watcher_id, points));
                return Some(ScoreMessage { points, position: i });
            }
            i = i + 1;
        }
        assert(!self.totals().contains_key(watcher_id)) by {
            if self.totals().contains_key(watcher_id) {
                let j = choose|j: int|
                    0 <= j < self.standings().len() && (#[trigger] self.standings()[j]).0 == watcher_id;
                assert(self.current[j].0 != watcher_id);
            }
        }
        None
    }

    /// Whether `score` tells the points and the place of a participant.
    pub open spec fn is_score(&self, watcher_id: Id, score: Option<ScoreMessage>) -> bool {
        match score {
            Some(score) => {
                &&& score.position < self.standings().len()
                &&& self.standings()[score.position as int] == (watcher_id, score.points)
            },
            None => !self.totals().contains_key(watcher_id),
        }
    }

    /// The standings after and before the last round, the first ones of each.
    pub fn last_two_scores_descending(&self) -> (lists: (TruncatedVec<(Id, u64)>, TruncatedVec<(Id, u64)>))
        ensures
            shows(lists.0, self.standings()),
            shows(lists.1, self.prior_standings()),
    {
        (truncated_scores(&self.current), truncated_scores(&self.prior))
    }

    /// The points of a participant, round by round.
    pub fn player_summary(&self, id: Id, show_real_score: bool) -> (points: Vec<u64>)
        ensures
            points@ == self.summary_of(id, show_real_score),
    {
        let mut points: Vec<u64> = Vec::new();
        let mut i: usize = 0;
        while i < self.rounds.len()
            invariant
                i <= self.rounds.len(),
                points.len() == i,
                forall|j: int|
                    0 <= j < i ==> #[trigger] points[j] == shown_points(earned(self.history()[j], id), show_real_score),
            decreases self.rounds.len() - i,
        {
            let round = &self.rounds[i];
            let mut found: u64 = 0;
            let mut j: usize = 0;
            assert(round@.skip(0) =~= round@);
            while j < round.len()
                invariant_except_break
                    j <= round.len(),
                    found == 0,
                    earned(round@, id) == earned(round@.skip(j as int), id),
                ensures
                    found == earned(round@, id),
                decreases round.len() - j,
            {
                assert(round@.skip(j as int)[0] == round@[j as int]);
                if round[j].0 == id {
                    found = round[j].1;
                    break;
                }
                assert(round@.skip(j as int).drop_first() =~= round@.skip(j + 1));
                j = j + 1;
            }
            points.push(
                if show_real_score || found == 0 {
                    found
                } else {
                    1
                },
            );
            i = i + 1;
        }
        assert(points@ =~= self.summary_of(id, show_real_score));
        points
    }

    /// The points of a participant, round by round.
    pub open spec fn summary_of(&self, id: Id, show_real_score: bool) -> Seq<u64> {
        Seq::new(
            self.history().len(),
            |i: int| shown_points(earned(self.history()[i], id), show_real_score),
        )
    }

    /// Whether `summary` tells what the host sees at the end.
    pub open spec fn is_host_summary(&self, show_real_score: bool, summary: HostSummary) -> bool {
        &&& summary.total_players == self.entrants().len()
        &&& summary.player_scores.len() == self.entrants().len()
        &&& forall|i: int|
            0 <= i < summary.player_scores.len() ==> {
                &&& (#[trigger] summary.player_scores[i]).0 == self.entrants()[i]
                &&& summary.player_scores[i].1@ == self.summary_of(self.entrants()[i], show_real_score)
            }
        &&& summary.correctness_stats.len() == self.history().len()
        &&& forall|i: int|
            0 <= i < summary.correctness_stats.len() ==> {
                &&& (#[trigger] summary.correctness_stats[i]).0 == scorers(self.history()[i])
                &&& summary.correctness_stats[i].1 == self.history()[i].len()
            }
    }

    /// What the host sees at the end.
    pub fn host_summary(&self, show_real_score: bool) -> (summary: HostSummary)
        ensures
            self.is_host_summary(show_real_score, summary),
    {
        let mut player_scores: Vec<(Id, Vec<u64>)> = Vec::new();
        let mut i: usize = 0;
        while i < self.order.len()
            invariant
                i <= self.order.len(),
                player_scores.len() == i,
                forall|j: int|
                    0 <= j < i ==> {
                        &&& (#[trigger] player_scores[j]).0 == self.entrants()[j]
                        &&& player_scores[j].1@ == self.summary_of(self.entrants()[j], show_real_score)
                    },
            decreases self.order.len() - i,
        {
            player_scores.push((self.order[i], self.player_summary(self.order[i], show_real_score)));
            i = i + 1;
        }
        let mut correctness_stats: Vec<(usize, usize)> = Vec::new();
        let mut r: usize = 0;
        while r < self.rounds.len()
            invariant
                r <= self.rounds.len(),
                correctness_stats.len() == r,
                forall|j: int|
                    0 <= j < r ==> {
                        &&& (#[trigger] correctness_stats[j]).0 == scorers(self.history()[j])
                        &&& correctness_stats[j].1 == self.history()[j].len()
                    },
            decreases self.rounds.len() - r,
        {
            let round = &self.rounds[r];
            let mut correct: usize = 0;
            let mut j: usize = 0;
            while j < round.len()
                invariant
                    j <= round.len(),
                    correct <= j,
                    correct == scorers(round@.take(j as int)),
                decreases round.len() - j,
            {
                assert(round@.take(j + 1).drop_last() =~= round@.take(j as int));
                if round[j].1 > 0 {
                    correct = correct + 1;
                }
                j = j + 1;
            }
            assert(round@.take(j as int) =~= round@);
            correctness_stats.push((correct, round.len()));
            r = r + 1;
        }
        HostSummary { total_players: self.order.len(), player_scores, correctness_stats }
    }
}

/// Whether the list shows the first of the standings.
pub open spec fn shows(list: TruncatedVec<(Id, u64)>, standings: Seq<(Id, u64)>) -> bool {
    &&& list.total() == standings.len()
    &&& list.kept() == standings.take(
        if standings.len() < SHOWN_SCORES { standings.len() as int } else { SHOWN_SCORES as int },
    )
}

fn truncated_scores(standings: &Vec<(Id, u64)>) -> (list: TruncatedVec<(Id, u64)>)
    ensures
        shows(list, standings@),
{
    let mut copy: Vec<(Id, u64)> = Vec::new();
    let mut i: usize = 0;
    while i < standings.len()
        invariant
            i <= standings.len(),
            copy@ == standings@.take(i as int),
        decreases standings.len() - i,
    {
        copy.push(standings[i]);
        i = i + 1;
        assert(copy@ =~= standings@.take(i as int));
    }
    assert(copy@ =~= standings@);
    TruncatedVec::new(copy.into_iter(), SHOWN_SCORES, standings.len())
}

/// The rounds decide everything: two leaderboards with the same rounds show the same.
pub proof fn rounds_decide_everything(a: Leaderboard, b: Leaderboard)
    requires
        a.wf(),
        b.wf(),
        a.history() == b.history(),
    ensures
        a.totals() == b.totals(),
        a.entrants() == b.entrants(),
        a.standings() == b.standings(),
        a.prior_standings() == b.prior_standings(),
{
}

/// Nobody loses points.
pub proof fn totals_never_fall(totals: Map<Id, u64>, round: Seq<(Id, u64)>, id: Id)
    requires
        totals.contains_key(id),
    ensures
        tallied(totals, round).contains_key(id),
        totals[id] <= tallied(totals, round)[id],
    decreases round.len(),
{
    if round.len() > 0 {
        totals_never_fall(totals, round.drop_last(), id);
    }
}

/// Whoever stands higher has at least as many points.
pub proof fn higher_places_have_more_points(leaderboard: Leaderboard, a: Id, b: Id, first: ScoreMessage, second: ScoreMessage)
    requires
        leaderboard.wf(),
        leaderboard.is_score(a, Some(first)),
        leaderboard.is_score(b, Some(second)),
        first.position < second.position,
    ensures
        first.points >= second.points,
        a != b,
{
}

// ---- what players can count on ----

/// A round adds its points to those so far, up to the largest number; everyone else keeps what they had.
pub proof fn rounds_add_up(totals: Map<Id, u64>, round: Seq<(Id, u64)>, id: Id)
    requires
        forall|i: int, j: int| 0 <= i < j < round.len() ==> (#[trigger] round[i]).0 != (#[trigger] round[j]).0,
    ensures
        forall|i: int|
            0 <= i < round.len() && (#[trigger] round[i]).0 == id ==> {
                let before: int = if totals.contains_key(id) {
                    totals[id] as int
                } else {
                    0
                };
                &&& tallied(totals, round).contains_key(id)
                &&& before + round[i].1 <= u64::MAX ==> tallied(totals, round)[id] == before + round[i].1
                &&& before + round[i].1 > u64::MAX ==> tallied(totals, round)[id] == u64::MAX
            },
        (forall|i: int| 0 <= i < round.len() ==> (#[trigger] round[i]).0 != id) ==> {
            &&& tallied(totals, round).contains_key(id) <==> totals.contains_key(id)
            &&& totals.contains_key(id) ==> tallied(totals, round)[id] == totals[id]
        },
    decreases round.len(),
{
    if round.len() > 0 {
        let rest = round.drop_last();
        rounds_add_up(totals, rest, id);
        if round.last().0 == id {
            assert forall|i: int| 0 <= i < rest.len() implies (#[trigger] rest[i]).0 != id by {
                assert(round[i].0 != round[round.len() - 1].0);
            }
            assert forall|i: int| 0 <= i < round.len() && (#[trigger] round[i]).0 == id implies i == round.len()
                - 1 by {
                if i < round.len() - 1 {
                    assert(rest[i].0 != id);
                }
            }
        } else {
            assert forall|i: int| 0 <= i < round.len() && (#[trigger] round[i]).0 == id implies rest[i].0 == id by {}
            if forall|i: int| 0 <= i < round.len() ==> (#[trigger] round[i]).0 != id {
                assert forall|i: int| 0 <= i < rest.len() implies (#[trigger] rest[i]).0 != id by {
                    assert(round[i].0 != id);
                }
            }
        }
    }
}

/// A new round changes nothing about the rounds before it.
pub proof fn points_come_from_all_rounds(history: Seq<Seq<(Id, u64)>>, round: Seq<(Id, u64)>, id: Id)
    requires
        forall|i: int, j: int| 0 <= i < j < round.len() ==> (#[trigger] round[i]).0 != (#[trigger] round[j]).0,
    ensures
        !all_totals(Seq::<Seq<(Id, u64)>>::empty()).contains_key(id),
        ({
            let before = all_totals(history);
            let after = all_totals(history.push(round));
            let had: int = if before.contains_key(id) {
                before[id] as int
            } else {
                0
            };
            &&& after.contains_key(id) <==> before.contains_key(id) || exists|i: int|
                0 <= i < round.len() && (#[trigger] round[i]).0 == id
            &&& forall|i: int|
                0 <= i < round.len() && (#[trigger] round[i]).0 == id ==> after[id] == if had + round[i].1 <= u64::MAX {
                    had + round[i].1
                } else {
                    u64::MAX as int
                }
            &&& (forall|i: int| 0 <= i < round.len() ==> (#[trigger] round[i]).0 != id) && before.contains_key(id)
                ==> after[id] == before[id]
        }),
{
    assert(history.push(round).drop_last() =~= history);
    rounds_add_up(all_totals(history), round, id);
}

proof fn lemma_place_is_right(list: Seq<(Id, u64)>, points: u64)
    ensures
        place(list, points) <= list.len(),
        forall|i: int| 0 <= i < place(list, points) ==> (#[trigger] list[i]).1 >= points,
        place(list, points) < list.len() ==> list[place(list, points) as int].1 < points,
    decreases list.len(),
{
    if list.len() > 0 && list[0].1 >= points {
        let rest = list.drop_first();
        lemma_place_is_right(rest, points);
        assert forall|i: int| 0 <= i < place(list, points) implies (#[trigger] list[i]).1 >= points by {
            if i > 0 {
                assert(list[i] == rest[i - 1]);
            }
        }
        if place(rest, points) < rest.len() {
            assert(rest[place(rest, points) as int] == list[place(list, points) as int]);
        }
    }
}

proof fn lemma_ranked(entrants: Seq<Id>, totals: Map<Id, u64>)
    requires
        entrants.no_duplicates(),
    ensures
        ranked(entrants, totals).len() == entrants.len(),
        forall|i: int|
            0 <= i < entrants.len() ==> entrants.contains((#[trigger] ranked(entrants, totals)[i]).0)
                && ranked(entrants, totals)[i].1 == totals[ranked(entrants, totals)[i].0],
        forall|i: int, j: int|
            0 <= i < j < entrants.len() ==> (#[trigger] ranked(entrants, totals)[i]).1 >= (#[trigger] ranked(
                entrants,
                totals,
            )[j]).1,
        forall|i: int, j: int, p: int, q: int|
            0 <= i < j < entrants.len() && 0 <= p < entrants.len() && 0 <= q < entrants.len() && (
            #[trigger] ranked(entrants, totals)[i]).1 == (#[trigger] ranked(entrants, totals)[j]).1
                && #[trigger] entrants[p] == ranked(entrants, totals)[i].0 && #[trigger] entrants[q] == ranked(
                entrants,
                totals,
            )[j].0 ==> p < q,
    decreases entrants.len(),
{
    if entrants.len() > 0 {
        let rest = entrants.drop_last();
        let last = entrants.last();
        let less = ranked(rest, totals);
        let all = ranked(entrants, totals);
        let points = totals[last];
        lemma_ranked(rest, totals);
        lemma_place_is_right(less, points);
        let at = place(less, points) as int;
        let n = entrants.len() - 1;
        assert(all == less.insert(at, (last, points)));
        assert forall|i: int| 0 <= i < entrants.len() implies entrants.contains((#[trigger] all[i]).0) && all[i].1
            == totals[all[i].0] by {
            if i == at {
                assert(entrants[n] == last);
            } else {
                let k = if i < at { i } else { i - 1 };
                assert(all[i] == less[k]);
                assert(rest.contains(less[k].0));
                let p = choose|p: int| 0 <= p < rest.len() && rest[p] == less[k].0;
                assert(entrants[p] == less[k].0);
            }
        }
        assert forall|i: int, j: int| 0 <= i < j < entrants.len() implies (#[trigger] all[i]).1 >= (
        #[trigger] all[j]).1 by {
            if i == at {
                assert(all[j] == less[j - 1]);
                if at < j - 1 {
                    assert(less[at].1 >= less[j - 1].1);
                }
            } else if j == at {
                assert(all[i] == less[i]);
            } else {
                let a = if i < at { i } else { i - 1 };
                let b = if j < at { j } else { j - 1 };
                assert(all[i] == less[a] && all[j] == less[b]);
            }
        }
        assert forall|i: int, j: int, p: int, q: int|
            0 <= i < j < entrants.len() && 0 <= p < entrants.len() && 0 <= q < entrants.len() && (#[trigger] all[i]).1
                == (#[trigger] all[j]).1 && #[trigger] entrants[p] == all[i].0 && #[trigger] entrants[q]
                == all[j].0 implies p < q by {
            if i == at {
                assert(all[j] == less[j - 1]);
                if at < j - 1 {
                    assert(less[at].1 >= less[j - 1].1);
                }
            } else if j == at {
                assert(all[i] == less[i]);
                assert(rest.contains(less[i].0));
                let k = choose|k: int| 0 <= k < rest.len() && rest[k] == less[i].0;
                assert(entrants[k] == entrants[p]);
                assert(entrants[q] == entrants[n]);
            } else {
                let a = if i < at { i } else { i - 1 };
                let b = if j < at { j } else { j - 1 };
                assert(all[i] == less[a] && all[j] == less[b]);
                assert(rest.contains(less[a].0));
                assert(rest.contains(less[b].0));
                let k = choose|k: int| 0 <= k < rest.len() && rest[k] == less[a].0;
                let m = choose|m: int| 0 <= m < rest.len() && rest[m] == less[b].0;
                assert(entrants[k] == entrants[p]);
                assert(entrants[m] == entrants[q]);
                assert(rest[p] == less[a].0 && rest[q] == less[b].0);
            }
        }
    }
}

/// In the standings more points come first, and among as many points whoever got an entry first.
pub proof fn more_points_come_first(leaderboard: Leaderboard, i: int, j: int)
    requires
        leaderboard.wf(),
        0 <= i < j < leaderboard.standings().len(),
    ensures
        leaderboard.standings()[i].0 != leaderboard.standings()[j].0,
        leaderboard.standings()[i].1 >= leaderboard.standings()[j].1,
        leaderboard.standings()[i].1 == leaderboard.standings()[j].1 ==> forall|p: int, q: int|
            0 <= p < leaderboard.entrants().len() && 0 <= q < leaderboard.entrants().len()
                && #[trigger] leaderboard.entrants()[p] == leaderboard.standings()[i].0
                && #[trigger] leaderboard.entrants()[q] == leaderboard.standings()[j].0 ==> p < q,
{
    lemma_ranked(leaderboard.entrants(), leaderboard.totals());
}

/// The standings list everyone with an entry, with all their points, and nobody else.
pub proof fn everyone_is_in_the_standings(leaderboard: Leaderboard)
    requires
        leaderboard.wf(),
    ensures
        leaderboard.standings().len() == leaderboard.entrants().len(),
        forall|id: Id| #[trigger]
            leaderboard.totals().contains_key(id) ==> exists|i: int|
                0 <= i < leaderboard.standings().len() && #[trigger] leaderboard.standings()[i] == (
                    id,
                    leaderboard.totals()[id],
                ),
        forall|i: int|
            0 <= i < leaderboard.standings().len() ==> leaderboard.totals().contains_key(
                (#[trigger] leaderboard.standings()[i]).0,
            ) && leaderboard.standings()[i].1 == leaderboard.totals()[leaderboard.standings()[i].0],
        leaderboard.totals() == all_totals(leaderboard.history()),
{
    lemma_ranked(leaderboard.entrants(), leaderboard.totals());
    assert forall|id: Id| #[trigger] leaderboard.totals().contains_key(id) implies exists|i: int|
        0 <= i < leaderboard.standings().len() && #[trigger] leaderboard.standings()[i] == (
            id,
            leaderboard.totals()[id],
        ) by {
        let i = choose|i: int| 0 <= i < leaderboard.standings().len() && (#[trigger] leaderboard.standings()[i]).0 == id;
        assert(leaderboard.standings()[i] == (id, leaderboard.totals()[id]));
    }
}

proof fn lemma_enlisted(entrants: Seq<Id>, round: Seq<(Id, u64)>)
    ensures
        entrants.len() <= enlisted(entrants, round).len(),
        enlisted(entrants, round).take(entrants.len() as int) == entrants,
        forall|id: Id| #[trigger]
            enlisted(entrants, round).contains(id) <==> entrants.contains(id) || exists|i: int|
                0 <= i < round.len() && (#[trigger] round[i]).0 == id,
    decreases round.len(),
{
    if round.len() == 0 {
        assert(entrants.take(entrants.len() as int) =~= entrants);
    } else {
        let rest = round.drop_last();
        let before = enlisted(entrants, rest);
        let after = enlisted(entrants, round);
        lemma_enlisted(entrants, rest);
        assert(after.take(entrants.len() as int) =~= before.take(entrants.len() as int));
        assert forall|id: Id| #[trigger] after.contains(id) <==> entrants.contains(id) || exists|i: int|
            0 <= i < round.len() && (#[trigger] round[i]).0 == id by {
            assert(before.contains(id) <==> entrants.contains(id) || exists|i: int|
                0 <= i < rest.len() && (#[trigger] rest[i]).0 == id);
            if before.contains(id) {
                let k = choose|k: int| 0 <= k < before.len() && before[k] == id;
                assert(after[k] == id);
                if !entrants.contains(id) {
                    let i = choose|i: int| 0 <= i < rest.len() && (#[trigger] rest[i]).0 == id;
                    assert(round[i].0 == id);
                }
            }
            if id == round.last().0 {
                assert(round[round.len() - 1].0 == id);
                if !before.contains(id) {
                    assert(after[before.len() as int] == id);
                }
            }
            if after.contains(id) && !before.contains(id) {
                let k = choose|k: int| 0 <= k < after.len() && after[k] == id;
                if k < before.len() {
                    assert(before[k] == id);
                }
            }
            if !before.contains(id) && id != round.last().0 {
                assert forall|i: int| 0 <= i < round.len() implies (#[trigger] round[i]).0 != id by {
                    if i < rest.len() {
                        assert(rest[i].0 != id);
                    }
                }
            }
        }
    }
}

/// Whoever has an entry keeps the place among the entrants; the new ones of a round come behind.
pub proof fn entrants_stay(entrants: Seq<Id>, round: Seq<(Id, u64)>)
    ensures
        forall|i: int| 0 <= i < entrants.len() ==> #[trigger] enlisted(entrants, round)[i] == entrants[i],
        entrants.len() <= enlisted(entrants, round).len(),
        forall|id: Id| #[trigger]
            enlisted(entrants, round).contains(id) <==> entrants.contains(id) || exists|i: int|
                0 <= i < round.len() && (#[trigger] round[i]).0 == id,
{
    lemma_enlisted(entrants, round);
    assert forall|i: int| 0 <= i < entrants.len() implies #[trigger] enlisted(entrants, round)[i] == entrants[i] by {
        assert(enlisted(entrants, round).take(entrants.len() as int)[i] == entrants[i]);
    }
}

/// The new entrants of a round come in its order.
pub proof fn entrants_come_in_order(entrants: Seq<Id>, round: Seq<(Id, u64)>, entry: (Id, u64))
    ensures
        entrants.contains(entry.0) || (exists|i: int| 0 <= i < round.len() && (#[trigger] round[i]).0 == entry.0)
            ==> enlisted(entrants, round.push(entry)) == enlisted(entrants, round),
        !(entrants.contains(entry.0) || (exists|i: int| 0 <= i < round.len() && (#[trigger] round[i]).0 == entry.0))
            ==> enlisted(entrants, round.push(entry)) == enlisted(entrants, round).push(entry.0),
{
    lemma_enlisted(entrants, round);
    assert(round.push(entry).drop_last() =~= round);
}

/// What someone earned in a round is what the round says, and nothing without an entry.
pub proof fn rounds_tell_what_was_earned(round: Seq<(Id, u64)>, id: Id)
    ensures
        (forall|i: int| 0 <= i < round.len() ==> (#[trigger] round[i]).0 != id) ==> earned(round, id) == 0,
        forall|i: int|
            0 <= i < round.len() && (#[trigger] round[i]).0 == id && (forall|j: int|
                0 <= j < i ==> (#[trigger] round[j]).0 != id) ==> earned(round, id) == round[i].1,
    decreases round.len(),
{
    if round.len() > 0 {
        let rest = round.drop_first();
        rounds_tell_what_was_earned(rest, id);
        if round[0].0 != id {
            if forall|i: int| 0 <= i < round.len() ==> (#[trigger] round[i]).0 != id {
                assert forall|i: int| 0 <= i < rest.len() implies (#[trigger] rest[i]).0 != id by {
                    assert(rest[i] == round[i + 1]);
                }
            }
            assert forall|i: int|
                0 <= i < round.len() && (#[trigger] round[i]).0 == id && (forall|j: int|
                    0 <= j < i ==> (#[trigger] round[j]).0 != id) implies earned(round, id) == round[i].1 by {
                assert(rest[i - 1] == round[i]);
                assert forall|j: int| 0 <= j < i - 1 implies (#[trigger] rest[j]).0 != id by {
                    assert(rest[j] == round[j + 1]);
                }
            }
        } else {
            assert forall|i: int|
                0 <= i < round.len() && (#[trigger] round[i]).0 == id && (forall|j: int|
                    0 <= j < i ==> (#[trigger] round[j]).0 != id) implies earned(round, id) == round[i].1 by {
                if i > 0 {
                    assert(round[0].0 != id);
                }
            }
        }
    }
}

/// Where points are kept quiet only whether there are any is shown; else they are shown as they are.
pub proof fn quiet_points_are_none_or_one(leaderboard: Leaderboard, id: Id, show_real_score: bool, i: int)
    requires
        0 <= i < leaderboard.history().len(),
    ensures
        leaderboard.summary_of(id, show_real_score).len() == leaderboard.history().len(),
        show_real_score ==> leaderboard.summary_of(id, show_real_score)[i] == earned(leaderboard.history()[i], id),
        !show_real_score ==> leaderboard.summary_of(id, show_real_score)[i] <= 1,
        leaderboard.summary_of(id, show_real_score)[i] == 0 <==> earned(leaderboard.history()[i], id) == 0,
{
}

/// Entries with points are counted one by one.
pub proof fn scorers_are_counted(round: Seq<(Id, u64)>, entry: (Id, u64))
    ensures
        scorers(Seq::<(Id, u64)>::empty()) == 0,
        entry.1 > 0 ==> scorers(round.push(entry)) == scorers(round) + 1,
        entry.1 == 0 ==> scorers(round.push(entry)) == scorers(round),
{
    assert(round.push(entry).drop_last() =~= round);
}

/// The first fifty are shown, all of them where there are no more; and how many there are is told.
pub proof fn the_first_are_shown(list: TruncatedVec<(Id, u64)>, standings: Seq<(Id, u64)>)
    requires
        shows(list, standings),
    ensures
        list.total() == standings.len(),
        standings.len() <= 50 ==> list.kept() == standings,
        standings.len() > 50 ==> list.kept().len() == 50,
        forall|i: int| 0 <= i < list.kept().len() ==> #[trigger] list.kept()[i] == standings[i],
{
    assert(standings.take(standings.len() as int) =~= standings);
}

/// A participant hears all their points and how many stand higher; whoever has more points stands higher.
pub proof fn places_go_by_points(leaderboard: Leaderboard, id: Id, score: ScoreMessage, other: Id)
    requires
        leaderboard.wf(),
        leaderboard.is_score(id, Some(score)),
    ensures
        leaderboard.totals().contains_key(id),
        score.points == leaderboard.totals()[id],
        leaderboard.totals().contains_key(other) && leaderboard.totals()[other] > score.points ==> exists|i: int|
            0 <= i < score.position && (#[trigger] leaderboard.standings()[i]).0 == other,
        leaderboard.totals().contains_key(other) && leaderboard.totals()[other] < score.points ==> exists|i: int|
            score.position < i < leaderboard.standings().len() && (#[trigger] leaderboard.standings()[i]).0 == other,
{
    everyone_is_in_the_standings(leaderboard);
    let at = score.position as int;
    assert(leaderboard.standings()[at].0 == id);
    if leaderboard.totals().contains_key(other) {
        let i = choose|i: int|
            0 <= i < leaderboard.standings().len() && #[trigger] leaderboard.standings()[i] == (
                other,
                leaderboard.totals()[other],
            );
        assert(leaderboard.standings()[i].0 == other);
    }
}

/// Whoever has an entry has a score, and nobody else.
pub proof fn entries_have_scores(leaderboard: Leaderboard, id: Id, score: Option<ScoreMessage>)
    requires
        leaderboard.wf(),
        leaderboard.is_score(id, score),
    ensures
        score is Some <==> leaderboard.totals().contains_key(id),
{
    if score is Some {
        assert(leaderboard.standings()[(score->0).position as int].0 == id);
    }
}

/// The host sees everyone who took part once, with their points round by round, and of every round how many
/// took part and how many of them earned points.
pub proof fn the_host_sees_every_round(leaderboard: Leaderboard, show_real_score: bool, summary: HostSummary, i: int, r: int)
    requires
        leaderboard.wf(),
        leaderboard.is_host_summary(show_real_score, summary),
        0 <= i < summary.player_scores@.len(),
        0 <= r < leaderboard.history().len(),
    ensures
        summary.total_players == summary.player_scores@.len(),
        summary.total_players == leaderboard.standings().len(),
        leaderboard.totals().contains_key(summary.player_scores@[i].0),
        forall|j: int| 0 <= j < i ==> (#[trigger] summary.player_scores@[j]).0 != summary.player_scores@[i].0,
        summary.player_scores@[i].1@.len() == leaderboard.history().len(),
        show_real_score ==> summary.player_scores@[i].1@[r] == earned(
            leaderboard.history()[r],
            summary.player_scores@[i].0,
        ),
        summary.player_scores@[i].1@[r] == 0 <==> earned(leaderboard.history()[r], summary.player_scores@[i].0) == 0,
        !show_real_score ==> summary.player_scores@[i].1@[r] <= 1,
        summary.correctness_stats@.len() == leaderboard.history().len(),
        summary.correctness_stats@[r].0 == scorers(leaderboard.history()[r]),
        summary.correctness_stats@[r].1 == leaderboard.history()[r].len(),
{
    lemma_ranked(leaderboard.entrants(), leaderboard.totals());
    assert(summary.player_scores[i].0 == leaderboard.entrants()[i]);
    assert(leaderboard.entrants().to_set().contains(leaderboard.entrants()[i]));
    assert(summary.correctness_stats[r].0 == scorers(leaderboard.history()[r]));
    assert forall|j: int| 0 <= j < i implies (#[trigger] summary.player_scores@[j]).0 != summary.player_scores@[i].0 by {
        assert(summary.player_scores[j].0 == leaderboard.entrants()[j]);
    }
}

/// The standings before a round are kept beside those after it.
pub proof fn standings_before_the_last_round_are_kept(before: Leaderboard, after: Leaderboard, round: Seq<(Id, u64)>)
    requires
        before.wf(),
        after.wf(),
        after.history() == before.history().push(round),
    ensures
        after.prior_standings() == before.standings(),
        forall|id: Id| #[trigger] before.totals().contains_key(id) ==> after.totals().contains_key(id)
            && before.totals()[id] <= after.totals()[id],
{
    assert(after.history().drop_last() =~= before.history());
    assert forall|id: Id| #[trigger] before.totals().contains_key(id) implies after.totals().contains_key(id)
        && before.totals()[id] <= after.totals()[id] by {
        totals_never_fall(before.totals(), round, id);
    }
}

} // verus!
