//! How players are put together: groups of players who chose each other, and teams made of groups.
use vstd::multiset::Multiset;
use vstd::prelude::*;
use vstd::seq_lib::lemma_multiset_commutative;

use crate::random::was_shuffled;
use crate::watcher::Id;

verus! {

/// Lists of players, as sequences.
pub open spec fn views(groups: Seq<Vec<Id>>) -> Seq<Seq<Id>> {
    groups.map_values(|group: Vec<Id>| group@)
}

/// Everyone in the groups, with how often they occur there.
pub open spec fn members(groups: Seq<Seq<Id>>) -> Multiset<Id>
    decreases groups.len(),
{
    if groups.len() == 0 {
        Multiset::empty()
    } else {
        members(groups.drop_last()).add(groups.last().to_multiset())
    }
}

/// The groups, one after the other, as one.
pub open spec fn flat(groups: Seq<Seq<Id>>) -> Seq<Id>
    decreases groups.len(),
{
    if groups.len() == 0 {
        Seq::empty()
    } else {
        flat(groups.drop_last()) + groups.last()
    }
}

/// Whether `a` comes before `b` in the dictionary, for groups of one size.
pub open spec fn lex_less(a: Seq<Id>, b: Seq<Id>) -> bool
    decreases a.len(),
{
    if a.len() == 0 || b.len() == 0 {
        a.len() < b.len()
    } else {
        a[0].0 < b[0].0 || (a[0] == b[0] && lex_less(a.drop_first(), b.drop_first()))
    }
}

/// Whether group `a` comes before group `b`: smaller ones first, and those of one size by their
/// players.
pub open spec fn precedes(a: Seq<Id>, b: Seq<Id>) -> bool {
    a.len() < b.len() || (a.len() == b.len() && lex_less(a, b))
}

/// Whether every group comes before all that follow it.
pub open spec fn in_order(groups: Seq<Seq<Id>>) -> bool {
    forall|i: int, j: int| 0 <= i < j < groups.len() ==> precedes(#[trigger] groups[i], #[trigger] groups[j])
}

/// How many of the first groups come before `group`.
pub open spec fn place(groups: Seq<Seq<Id>>, group: Seq<Id>) -> nat
    decreases groups.len(),
{
    if groups.len() > 0 && precedes(groups[0], group) {
        1 + place(groups.drop_first(), group)
    } else {
        0
    }
}

/// `groups` with `group` at its place, unless it is among them.
pub open spec fn inserted(groups: Seq<Seq<Id>>, group: Seq<Id>) -> Seq<Seq<Id>> {
    let i = place(groups, group) as int;
    if i < groups.len() && groups[i] == group {
        groups
    } else {
        groups.insert(i, group)
    }
}

/// How many of the first groups have at most `room` players.
pub open spec fn fitting(groups: Seq<Seq<Id>>, room: nat) -> nat
    decreases groups.len(),
{
    if groups.len() > 0 && groups[0].len() <= room {
        1 + fitting(groups.drop_first(), room)
    } else {
        0
    }
}

/// The room that `size` players leave in a team of `optimal` players.
pub open spec fn room(optimal: nat, size: nat) -> nat {
    if size <= optimal {
        (optimal - size) as nat
    } else {
        0
    }
}

/// `groups` with one more: joined with the last of those that fit beside it, or on its own.
pub open spec fn joined_by(groups: Seq<Seq<Id>>, group: Seq<Id>, optimal: nat) -> Seq<Seq<Id>> {
    let count = fitting(groups, room(optimal, group.len()));
    if count > 0 {
        inserted(groups.remove(count - 1), group + groups[count - 1])
    } else {
        inserted(groups, group)
    }
}

/// The groups put together one by one.
pub open spec fn merged(groups: Seq<Seq<Id>>, optimal: nat) -> Seq<Seq<Id>>
    decreases groups.len(),
{
    if groups.len() == 0 {
        Seq::empty()
    } else {
        joined_by(merged(groups.drop_last(), optimal), groups.last(), optimal)
    }
}

/// The groups with the first one, where it is a single player and not alone, joined to the second.
pub open spec fn consolidated(groups: Seq<Seq<Id>>) -> Seq<Seq<Id>> {
    if groups.len() >= 2 && groups[0].len() == 1 {
        inserted(groups.skip(2), groups[0] + groups[1])
    } else {
        groups
    }
}

/// How many teams of at most `optimal` players `count` players need.
pub open spec fn teams_needed(count: nat, optimal: nat) -> nat {
    (count / optimal + if count % optimal > 0 { 1nat } else { 0nat }) as nat
}

/// How many of the groups before team `i`, where `count` groups go to `teams` teams as evenly as
/// possible, smaller teams first.
pub open spec fn team_start(count: nat, teams: nat, i: int) -> int {
    let base = count / teams;
    let small = teams - count % teams;
    if i <= small {
        i * base
    } else {
        small * base + (i - small) * (base + 1)
    }
}

/// The groups dealt out to as many teams as are needed, as evenly as possible.
pub open spec fn redistributed(groups: Seq<Seq<Id>>, optimal: nat) -> Seq<Seq<Id>> {
    let count = groups.len();
    let teams = teams_needed(count, optimal);
    Seq::new(
        teams,
        |i: int| flat(groups.subrange(team_start(count, teams, i), team_start(count, teams, i + 1))),
    )
}

/// The teams that the groups make: dealt out evenly where there are as many groups as players, else
/// put together as they fit.
pub open spec fn balanced(groups: Seq<Seq<Id>>, players_count: nat, optimal: nat) -> Seq<Seq<Id>> {
    if groups.len() == players_count {
        redistributed(groups, optimal)
    } else {
        consolidated(merged(groups, optimal))
    }
}

// ---- the order of groups ----

proof fn lemma_lex_order(a: Seq<Id>, b: Seq<Id>)
    requires
        a.len() == b.len(),
    ensures
        lex_less(a, b) || lex_less(b, a) || a == b,
        !(lex_less(a, b) && lex_less(b, a)),
        a == b ==> !lex_less(a, b),
    decreases a.len(),
{
    if a.len() > 0 {
        lemma_lex_order(a.drop_first(), b.drop_first());
        if a[0] == b[0] && a.drop_first() == b.drop_first() {
            assert(a =~= seq![a[0]] + a.drop_first());
            assert(b =~= seq![b[0]] + b.drop_first());
        }
    } else {
        assert(a =~= b);
    }
}

proof fn lemma_lex_transitive(a: Seq<Id>, b: Seq<Id>, c: Seq<Id>)
    requires
        a.len() == b.len(),
        b.len() == c.len(),
        lex_less(a, b),
        lex_less(b, c),
    ensures
        lex_less(a, c),
    decreases a.len(),
{
    if a.len() > 0 && a[0] == b[0] && b[0] == c[0] {
        lemma_lex_transitive(a.drop_first(), b.drop_first(), c.drop_first());
    }
}

/// Of two groups one comes before the other, unless they are the same.
pub proof fn groups_are_ordered(a: Seq<Id>, b: Seq<Id>)
    ensures
        precedes(a, b) || precedes(b, a) || a == b,
        !(precedes(a, b) && precedes(b, a)),
        a == b ==> !precedes(a, b),
{
    if a.len() == b.len() {
        lemma_lex_order(a, b);
    }
}

proof fn lemma_precedes_transitive(a: Seq<Id>, b: Seq<Id>, c: Seq<Id>)
    requires
        precedes(a, b),
        precedes(b, c),
    ensures
        precedes(a, c),
{
    if a.len() == b.len() && b.len() == c.len() {
        lemma_lex_transitive(a, b, c);
    }
}

proof fn lemma_place(groups: Seq<Seq<Id>>, group: Seq<Id>)
    ensures
        place(groups, group) <= groups.len(),
        forall|i: int| 0 <= i < place(groups, group) ==> precedes(#[trigger] groups[i], group),
        place(groups, group) < groups.len() ==> !precedes(groups[place(groups, group) as int], group),
    decreases groups.len(),
{
    if groups.len() > 0 && precedes(groups[0], group) {
        lemma_place(groups.drop_first(), group);
        assert forall|i: int| 0 <= i < place(groups, group) implies precedes(#[trigger] groups[i], group) by {
            if i > 0 {
                assert(groups.drop_first()[i - 1] == groups[i]);
            }
        }
    }
}

proof fn lemma_inserted_in_order(groups: Seq<Seq<Id>>, group: Seq<Id>)
    requires
        in_order(groups),
    ensures
        in_order(inserted(groups, group)),
{
    let at = place(groups, group) as int;
    lemma_place(groups, group);
    let after = inserted(groups, group);
    if !(at < groups.len() && groups[at] == group) {
        assert forall|i: int, j: int| 0 <= i < j < after.len() implies precedes(
            #[trigger] after[i],
            #[trigger] after[j],
        ) by {
            if at < groups.len() {
                groups_are_ordered(groups[at], group);
            }
            if i == at {
                let next = groups[j - 1];
                if at < j - 1 {
                    lemma_precedes_transitive(group, groups[at], next);
                }
            }
        }
    }
}

proof fn lemma_fitting(groups: Seq<Seq<Id>>, room: nat)
    ensures
        fitting(groups, room) <= groups.len(),
        forall|i: int| 0 <= i < fitting(groups, room) ==> #[trigger] groups[i].len() <= room,
        fitting(groups, room) < groups.len() ==> groups[fitting(groups, room) as int].len() > room,
    decreases groups.len(),
{
    if groups.len() > 0 && groups[0].len() <= room {
        lemma_fitting(groups.drop_first(), room);
        assert forall|i: int| 0 <= i < fitting(groups, room) implies #[trigger] groups[i].len() <= room by {
            if i > 0 {
                assert(groups.drop_first()[i - 1] == groups[i]);
            }
        }
    }
}

proof fn lemma_merged_in_order(groups: Seq<Seq<Id>>, optimal: nat)
    ensures
        in_order(merged(groups, optimal)),
    decreases groups.len(),
{
    if groups.len() > 0 {
        let before = merged(groups.drop_last(), optimal);
        lemma_merged_in_order(groups.drop_last(), optimal);
        let count = fitting(before, room(optimal, groups.last().len()));
        lemma_fitting(before, room(optimal, groups.last().len()));
        if count > 0 {
            lemma_inserted_in_order(before.remove(count - 1), groups.last() + before[count - 1]);
        } else {
            lemma_inserted_in_order(before, groups.last());
        }
    }
}

// ---- who is in the groups ----

proof fn lemma_members_insert(groups: Seq<Seq<Id>>, i: int, group: Seq<Id>)
    requires
        0 <= i <= groups.len(),
    ensures
        members(groups.insert(i, group)) == members(groups).add(group.to_multiset()),
    decreases groups.len(),
{
    let after = groups.insert(i, group);
    if i == groups.len() {
        assert(after.drop_last() =~= groups);
    } else {
        lemma_members_insert(groups.drop_last(), i, group);
        assert(after.drop_last() =~= groups.drop_last().insert(i, group));
        assert(members(after) =~= members(groups).add(group.to_multiset()));
    }
}

proof fn lemma_members_remove(groups: Seq<Seq<Id>>, i: int)
    requires
        0 <= i < groups.len(),
    ensures
        members(groups) == members(groups.remove(i)).add(groups[i].to_multiset()),
{
    assert(groups.remove(i).insert(i, groups[i]) =~= groups);
    lemma_members_insert(groups.remove(i), i, groups[i]);
}

pub proof fn lemma_members_count(groups: Seq<Seq<Id>>, id: Id)
    ensures
        members(groups).count(id) > 0 <==> exists|i: int|
            0 <= i < groups.len() && #[trigger] groups[i].contains(id),
    decreases groups.len(),
{
    if groups.len() > 0 {
        let rest = groups.drop_last();
        lemma_members_count(rest, id);
        groups.last().to_multiset_ensures();
        if members(rest).count(id) > 0 {
            let i = choose|i: int| 0 <= i < rest.len() && #[trigger] rest[i].contains(id);
            assert(groups[i].contains(id));
        }
        if groups.last().contains(id) {
            assert(groups[groups.len() - 1].contains(id));
        }
        if exists|i: int| 0 <= i < groups.len() && #[trigger] groups[i].contains(id) {
            let i = choose|i: int| 0 <= i < groups.len() && #[trigger] groups[i].contains(id);
            if i < rest.len() {
                assert(rest[i].contains(id));
            }
        }
    }
}

/// Whether every group has players and nobody is in two places.
pub open spec fn disjoint(groups: Seq<Seq<Id>>) -> bool {
    &&& forall|i: int| 0 <= i < groups.len() ==> #[trigger] groups[i].len() > 0
    &&& forall|id: Id| #[trigger] members(groups).count(id) <= 1
}

/// A group of new players, put among groups that none of them is in, is there exactly once.
proof fn lemma_inserted_members(groups: Seq<Seq<Id>>, group: Seq<Id>)
    requires
        group.len() > 0,
        forall|id: Id| group.contains(id) ==> #[trigger] members(groups).count(id) == 0,
    ensures
        members(inserted(groups, group)) == members(groups).add(group.to_multiset()),
        inserted(groups, group).len() == groups.len() + 1,
{
    let at = place(groups, group) as int;
    lemma_place(groups, group);
    if at < groups.len() && groups[at] == group {
        let id = group[0];
        assert(group.contains(id));
        lemma_members_count(groups, id);
        assert(groups[at].contains(id));
    }
    lemma_members_insert(groups, at, group);
}

proof fn lemma_joined_by_members(groups: Seq<Seq<Id>>, group: Seq<Id>, optimal: nat)
    requires
        group.len() > 0,
        forall|id: Id| #[trigger] members(groups).add(group.to_multiset()).count(id) <= 1,
    ensures
        members(joined_by(groups, group, optimal)) == members(groups).add(group.to_multiset()),
{
    let count = fitting(groups, room(optimal, group.len()));
    lemma_fitting(groups, room(optimal, group.len()));
    group.to_multiset_ensures();
    if count > 0 {
        let other = groups[count - 1];
        let rest = groups.remove(count - 1);
        lemma_members_remove(groups, count - 1);
        lemma_multiset_commutative(group, other);
        (group + other).to_multiset_ensures();
        other.to_multiset_ensures();
        assert forall|id: Id| (group + other).contains(id) implies #[trigger] members(rest).count(id) == 0 by {
            assert((group + other).to_multiset().count(id) > 0);
            assert(members(groups).add(group.to_multiset()).count(id) <= 1);
        }
        lemma_inserted_members(rest, group + other);
        assert(members(joined_by(groups, group, optimal)) =~= members(groups).add(group.to_multiset()));
    } else {
        assert forall|id: Id| group.contains(id) implies #[trigger] members(groups).count(id) == 0 by {
            assert(group.to_multiset().count(id) > 0);
            assert(members(groups).add(group.to_multiset()).count(id) <= 1);
        }
        lemma_inserted_members(groups, group);
    }
}

proof fn lemma_merged_members(groups: Seq<Seq<Id>>, optimal: nat)
    requires
        disjoint(groups),
    ensures
        members(merged(groups, optimal)) == members(groups),
        groups.len() > 0 ==> merged(groups, optimal).len() > 0,
    decreases groups.len(),
{
    if groups.len() > 0 {
        let rest = groups.drop_last();
        assert forall|id: Id| #[trigger] members(rest).count(id) <= 1 by {
            assert(members(groups).count(id) <= 1);
        }
        assert forall|i: int| 0 <= i < rest.len() implies #[trigger] rest[i].len() > 0 by {
            assert(groups[i].len() > 0);
        }
        lemma_merged_members(rest, optimal);
        assert(groups[groups.len() - 1].len() > 0);
        assert forall|id: Id| #[trigger]
            members(merged(rest, optimal)).add(groups.last().to_multiset()).count(id) <= 1 by {
            assert(members(groups).count(id) <= 1);
        }
        lemma_joined_by_members(merged(rest, optimal), groups.last(), optimal);
        let group = groups.last();
        group.to_multiset_ensures();
        assert(members(merged(groups, optimal)).count(group[0]) > 0) by {
            assert(group.contains(group[0]));
            assert(group.to_multiset().count(group[0]) > 0);
        }
    }
}

proof fn lemma_consolidated_members(groups: Seq<Seq<Id>>)
    requires
        forall|id: Id| #[trigger] members(groups).count(id) <= 1,
    ensures
        members(consolidated(groups)) == members(groups),
        groups.len() > 0 ==> consolidated(groups).len() > 0,
{
    if groups.len() >= 2 && groups[0].len() == 1 {
        let rest = groups.skip(2);
        let first = groups[0];
        let second = groups[1];
        lemma_members_remove(groups, 0);
        assert(groups.remove(0)[0] == second);
        lemma_members_remove(groups.remove(0), 0);
        assert(groups.remove(0).remove(0) =~= rest);
        lemma_multiset_commutative(first, second);
        first.to_multiset_ensures();
        second.to_multiset_ensures();
        (first + second).to_multiset_ensures();
        assert forall|id: Id| (first + second).contains(id) implies #[trigger] members(rest).count(id) == 0 by {
            assert((first + second).to_multiset().count(id) > 0);
            assert(members(groups).count(id) <= 1);
        }
        lemma_inserted_members(rest, first + second);
        assert(members(consolidated(groups)) =~= members(groups));
    }
}

proof fn lemma_flat_members(groups: Seq<Seq<Id>>)
    ensures
        flat(groups).to_multiset() == members(groups),
    decreases groups.len(),
{
    if groups.len() > 0 {
        lemma_flat_members(groups.drop_last());
        lemma_multiset_commutative(flat(groups.drop_last()), groups.last());
    } else {
        Seq::<Id>::empty().to_multiset_ensures();
        assert(flat(groups).to_multiset() =~= Multiset::empty());
    }
}

proof fn lemma_members_subrange(groups: Seq<Seq<Id>>, a: int, b: int)
    requires
        0 <= a <= b <= groups.len(),
    ensures
        members(groups.take(b)) == members(groups.take(a)).add(members(groups.subrange(a, b))),
    decreases b - a,
{
    if a < b {
        lemma_members_subrange(groups, a, b - 1);
        assert(groups.take(b).drop_last() =~= groups.take(b - 1));
        assert(groups.subrange(a, b).drop_last() =~= groups.subrange(a, b - 1));
        assert(members(groups.take(b)) =~= members(groups.take(a)).add(members(groups.subrange(a, b))));
    } else {
        assert(groups.subrange(a, b) =~= Seq::<Seq<Id>>::empty());
        assert(members(groups.take(b)) =~= members(groups.take(a)).add(members(groups.subrange(a, b))));
    }
}

pub proof fn lemma_team_starts(count: nat, optimal: nat)
    requires
        count > 0,
        optimal > 0,
    ensures
        ({
            let teams = teams_needed(count, optimal);
            &&& 0 < teams <= count
            &&& team_start(count, teams, 0) == 0
            &&& team_start(count, teams, teams as int) == count
            &&& 1 <= count / teams <= optimal
            &&& count % teams > 0 ==> count / teams + 1 <= optimal
            &&& forall|i: int|
                0 <= i < teams ==> (#[trigger] team_start(count, teams, i + 1)) - team_start(count, teams, i) == if i
                    < teams - count % teams {
                    count / teams
                } else {
                    count / teams + 1
                }
            &&& forall|i: int| 0 <= i <= teams ==> 0 <= #[trigger] team_start(count, teams, i) <= count
        }),
{
    let teams = teams_needed(count, optimal) as int;
    let c = count as int;
    let o = optimal as int;
    let base = c / teams;
    let rem = c % teams;
    vstd::arithmetic::div_mod::lemma_fundamental_div_mod(c, o);
    assert(0 < teams <= c && c <= teams * o && (teams - 1) * o < c) by (nonlinear_arith)
        requires
            c > 0,
            o > 0,
            c == o * (c / o) + c % o,
            0 <= c % o < o,
            teams == c / o + if c % o > 0 { 1int } else { 0int },
    ;
    vstd::arithmetic::div_mod::lemma_fundamental_div_mod(c, teams);
    assert(0 <= rem < teams);
    assert(1 <= base <= o && (rem > 0 ==> base + 1 <= o)) by (nonlinear_arith)
        requires
            0 < teams <= c,
            c <= teams * o,
            c == teams * base + rem,
            0 <= rem < teams,
    ;
    let small = teams - rem;
    assert(small * base + rem * (base + 1) == c) by (nonlinear_arith)
        requires
            c == teams * base + rem,
            small == teams - rem,
    ;
    assert(0 * base == 0);
    if rem == 0 {
        assert(team_start(count, teams as nat, teams) == c) by (nonlinear_arith)
            requires
                rem == 0,
                small == teams,
                small * base + rem * (base + 1) == c,
                team_start(count, teams as nat, teams) == teams * base,
        ;
    }
    assert forall|i: int| 0 <= i < teams implies (#[trigger] team_start(count, teams as nat, i + 1)) - team_start(
        count,
        teams as nat,
        i,
    ) == if i < small {
        base
    } else {
        base + 1
    } by {
        assert((i + 1) * base == i * base + base) by (nonlinear_arith);
        assert((i + 1 - small) * (base + 1) == (i - small) * (base + 1) + (base + 1)) by (nonlinear_arith);
        if i == small {
            assert((i - small) * (base + 1) == 0) by (nonlinear_arith)
                requires
                    i == small,
            ;
        }
    }
    assert forall|i: int| 0 <= i <= teams implies 0 <= #[trigger] team_start(count, teams as nat, i) <= count by {
        assert(0 <= i * base) by (nonlinear_arith)
            requires
                0 <= i,
                0 <= base,
        ;
        if i <= small {
            assert(i * base <= small * base) by (nonlinear_arith)
                requires
                    0 <= i <= small,
                    0 <= base,
            ;
            assert(0 <= rem * (base + 1)) by (nonlinear_arith)
                requires
                    0 <= rem,
                    0 <= base,
            ;
        } else {
            assert(0 <= (i - small) * (base + 1) <= rem * (base + 1) && 0 <= small * base) by (nonlinear_arith)
                requires
                    small < i <= teams,
                    small == teams - rem,
                    0 <= base,
                    0 <= small,
            ;
        }
    }
}

proof fn lemma_redistributed_members(groups: Seq<Seq<Id>>, optimal: nat, n: nat)
    requires
        groups.len() > 0,
        optimal > 0,
        n <= redistributed(groups, optimal).len(),
    ensures
        members(redistributed(groups, optimal).take(n as int)) == members(
            groups.take(team_start(groups.len(), teams_needed(groups.len(), optimal), n as int)),
        ),
    decreases n,
{
    let teams = redistributed(groups, optimal);
    let needed = teams_needed(groups.len(), optimal);
    lemma_team_starts(groups.len(), optimal);
    if n > 0 {
        let i = n - 1;
        lemma_redistributed_members(groups, optimal, (n - 1) as nat);
        let a = team_start(groups.len(), needed, i);
        let b = team_start(groups.len(), needed, i + 1);
        assert(teams.take(n as int).drop_last() =~= teams.take(i));
        lemma_flat_members(groups.subrange(a, b));
        lemma_members_subrange(groups, a, b);
    } else {
        assert(teams.take(0) =~= Seq::<Seq<Id>>::empty());
        assert(groups.take(0) =~= Seq::<Seq<Id>>::empty());
    }
}

/// Forming teams loses nobody and puts nobody in two of them.
pub proof fn teams_hold_everyone_once(groups: Seq<Seq<Id>>, players_count: nat, optimal: nat)
    requires
        disjoint(groups),
        groups.len() > 0,
        optimal > 0,
    ensures
        members(balanced(groups, players_count, optimal)) == members(groups),
        balanced(groups, players_count, optimal).len() > 0,
{
    if groups.len() == players_count {
        lemma_team_starts(groups.len(), optimal);
        let teams = redistributed(groups, optimal);
        lemma_redistributed_members(groups, optimal, teams.len());
        assert(teams.take(teams.len() as int) =~= teams);
        assert(groups.take(groups.len() as int) =~= groups);
    } else {
        lemma_merged_members(groups, optimal);
        lemma_consolidated_members(merged(groups, optimal));
    }
}

/// The group that a new one is joined with is the last, so a largest, of those that fit beside it.
pub proof fn joins_a_largest_that_fits(groups: Seq<Seq<Id>>, room: nat, i: int)
    requires
        in_order(groups),
        0 <= i < groups.len(),
        groups[i].len() <= room,
    ensures
        i < fitting(groups, room),
        groups[i].len() <= groups[fitting(groups, room) - 1].len(),
{
    lemma_fitting(groups, room);
    let count = fitting(groups, room) as int;
    if count <= i {
        assert(precedes(groups[count], groups[i]) || count == i);
    } else if i < count - 1 {
        assert(precedes(groups[i], groups[count - 1]));
    }
}

/// Teams are listed by size, the smallest first.
pub proof fn merged_teams_are_listed_by_size(groups: Seq<Seq<Id>>, optimal: nat)
    ensures
        in_order(consolidated(merged(groups, optimal))),
{
    lemma_merged_in_order(groups, optimal);
    let teams = merged(groups, optimal);
    if teams.len() >= 2 && teams[0].len() == 1 {
        lemma_inserted_in_order(teams.skip(2), teams[0] + teams[1]);
    }
}

/// Whether some group holds everyone in `group`.
pub open spec fn keeps_together(groups: Seq<Seq<Id>>, group: Seq<Id>) -> bool {
    exists|i: int| 0 <= i < groups.len() && #[trigger] holds_all(groups[i], group)
}

/// Whether `team` holds everyone in `group`.
pub open spec fn holds_all(team: Seq<Id>, group: Seq<Id>) -> bool {
    forall|id: Id| group.contains(id) ==> #[trigger] team.contains(id)
}

proof fn lemma_inserted_contains(groups: Seq<Seq<Id>>, group: Seq<Id>)
    ensures
        forall|i: int| 0 <= i < groups.len() ==> inserted(groups, group).contains(#[trigger] groups[i]),
        inserted(groups, group).contains(group),
{
    lemma_place(groups, group);
    let at = place(groups, group) as int;
    let after = inserted(groups, group);
    assert forall|i: int| 0 <= i < groups.len() implies after.contains(#[trigger] groups[i]) by {
        if at < groups.len() && groups[at] == group {
            assert(after[i] == groups[i]);
        } else if i < at {
            assert(after[i] == groups[i]);
        } else {
            assert(after[i + 1] == groups[i]);
        }
    }
    assert(after[at] == group);
}

proof fn lemma_joined_by_keeps(groups: Seq<Seq<Id>>, group: Seq<Id>, optimal: nat, kept: Seq<Id>)
    ensures
        keeps_together(groups, kept) ==> keeps_together(joined_by(groups, group, optimal), kept),
        keeps_together(joined_by(groups, group, optimal), group),
{
    let count = fitting(groups, room(optimal, group.len()));
    lemma_fitting(groups, room(optimal, group.len()));
    let after = joined_by(groups, group, optimal);
    if count > 0 {
        let rest = groups.remove(count - 1);
        let team = group + groups[count - 1];
        lemma_inserted_contains(rest, team);
        let k = choose|k: int| 0 <= k < after.len() && after[k] == team;
        lemma_concat_holds(group, groups[count - 1]);
        assert(holds_all(after[k], group));
        if keeps_together(groups, kept) {
            let i = choose|i: int| 0 <= i < groups.len() && #[trigger] holds_all(groups[i], kept);
            if i == count - 1 {
                assert forall|id: Id| kept.contains(id) implies #[trigger] after[k].contains(id) by {
                    assert(groups[i].contains(id));
                }
                assert(holds_all(after[k], kept));
            } else {
                let j = if i < count - 1 { i } else { i - 1 };
                assert(rest[j] == groups[i]);
                let m = choose|m: int| 0 <= m < after.len() && after[m] == rest[j];
                assert(holds_all(after[m], kept));
            }
        }
    } else {
        lemma_inserted_contains(groups, group);
        let k = choose|k: int| 0 <= k < after.len() && after[k] == group;
        assert(holds_all(after[k], group));
        if keeps_together(groups, kept) {
            let i = choose|i: int| 0 <= i < groups.len() && #[trigger] holds_all(groups[i], kept);
            let m = choose|m: int| 0 <= m < after.len() && after[m] == groups[i];
            assert(holds_all(after[m], kept));
        }
    }
}

proof fn lemma_concat_holds(a: Seq<Id>, b: Seq<Id>)
    ensures
        forall|id: Id| a.contains(id) ==> #[trigger] (a + b).contains(id),
        forall|id: Id| b.contains(id) ==> #[trigger] (a + b).contains(id),
{
    assert forall|id: Id| a.contains(id) implies #[trigger] (a + b).contains(id) by {
        let i = choose|i: int| 0 <= i < a.len() && a[i] == id;
        assert((a + b)[i] == id);
    }
    assert forall|id: Id| b.contains(id) implies #[trigger] (a + b).contains(id) by {
        let i = choose|i: int| 0 <= i < b.len() && b[i] == id;
        assert((a + b)[a.len() + i] == id);
    }
}

proof fn lemma_merged_keeps(groups: Seq<Seq<Id>>, optimal: nat, i: int)
    requires
        0 <= i < groups.len(),
    ensures
        keeps_together(merged(groups, optimal), groups[i]),
    decreases groups.len(),
{
    lemma_joined_by_keeps(merged(groups.drop_last(), optimal), groups.last(), optimal, groups[i]);
    if i < groups.len() - 1 {
        lemma_merged_keeps(groups.drop_last(), optimal, i);
        assert(groups.drop_last()[i] == groups[i]);
    }
}

/// Players of one group end up in one team, where groups are put together as they fit.
pub proof fn merging_keeps_groups_together(groups: Seq<Seq<Id>>, optimal: nat, i: int)
    requires
        0 <= i < groups.len(),
    ensures
        keeps_together(consolidated(merged(groups, optimal)), groups[i]),
{
    lemma_merged_keeps(groups, optimal, i);
    let teams = merged(groups, optimal);
    let after = consolidated(teams);
    let group = groups[i];
    if teams.len() >= 2 && teams[0].len() == 1 {
        let team = teams[0] + teams[1];
        let rest = teams.skip(2);
        lemma_inserted_contains(rest, team);
        lemma_concat_holds(teams[0], teams[1]);
        let k = choose|k: int| 0 <= k < after.len() && after[k] == team;
        let j = choose|j: int| 0 <= j < teams.len() && #[trigger] holds_all(teams[j], group);
        if j < 2 {
            assert forall|id: Id| group.contains(id) implies #[trigger] after[k].contains(id) by {
                assert(teams[j].contains(id));
            }
            assert(holds_all(after[k], group));
        } else {
            assert(rest[j - 2] == teams[j]);
            let m = choose|m: int| 0 <= m < after.len() && after[m] == rest[j - 2];
            assert(holds_all(after[m], group));
        }
    }
}

/// Whether no group has more than `size` players.
pub open spec fn at_most(groups: Seq<Seq<Id>>, size: nat) -> bool {
    forall|i: int| 0 <= i < groups.len() ==> #[trigger] groups[i].len() <= size
}

proof fn lemma_inserted_at_most(groups: Seq<Seq<Id>>, group: Seq<Id>, size: nat)
    requires
        at_most(groups, size),
        group.len() <= size,
    ensures
        at_most(inserted(groups, group), size),
{
    lemma_place(groups, group);
}

/// Putting groups together makes no team larger than the size aimed at, unless a group was.
pub proof fn merging_respects_the_size(groups: Seq<Seq<Id>>, optimal: nat, size: nat)
    requires
        optimal <= size,
        at_most(groups, size),
    ensures
        at_most(merged(groups, optimal), size),
    decreases groups.len(),
{
    if groups.len() > 0 {
        let before = merged(groups.drop_last(), optimal);
        merging_respects_the_size(groups.drop_last(), optimal, size);
        let group = groups.last();
        assert(groups[groups.len() - 1].len() <= size);
        let count = fitting(before, room(optimal, group.len()));
        lemma_fitting(before, room(optimal, group.len()));
        if count > 0 {
            assert(before[count - 1].len() <= room(optimal, group.len()));
            lemma_inserted_at_most(before.remove(count - 1), group + before[count - 1], size);
        } else {
            lemma_inserted_at_most(before, group, size);
        }
    }
}

/// A last single player makes one team larger by one at most.
pub proof fn consolidating_adds_one(groups: Seq<Seq<Id>>, size: nat)
    requires
        at_most(groups, size),
    ensures
        at_most(consolidated(groups), size + 1),
{
    if groups.len() >= 2 && groups[0].len() == 1 {
        assert(groups[1].len() <= size);
        assert(at_most(groups.skip(2), size + 1));
        lemma_inserted_at_most(groups.skip(2), groups[0] + groups[1], size + 1);
    }
}

/// Whether any two of the teams together exceed the size aimed at.
pub open spec fn no_two_fit(teams: Seq<Seq<Id>>, optimal: nat) -> bool {
    forall|i: int, j: int|
        0 <= i < j < teams.len() ==> (#[trigger] teams[i]).len() + (#[trigger] teams[j]).len() > optimal
}

proof fn lemma_inserted_no_two_fit(groups: Seq<Seq<Id>>, group: Seq<Id>, optimal: nat)
    requires
        no_two_fit(groups, optimal),
        forall|i: int| 0 <= i < groups.len() ==> (#[trigger] groups[i]).len() + group.len() > optimal,
    ensures
        no_two_fit(inserted(groups, group), optimal),
{
    let at = place(groups, group) as int;
    let after = inserted(groups, group);
    lemma_place(groups, group);
    if !(at < groups.len() && groups[at] == group) {
        assert forall|i: int, j: int| 0 <= i < j < after.len() implies (#[trigger] after[i]).len() + (
        #[trigger] after[j]).len() > optimal by {
            let a = if i < at { i } else { i - 1 };
            let b = if j < at { j } else { j - 1 };
            if i == at {
                assert(after[j] == groups[b]);
            } else if j == at {
                assert(after[i] == groups[a]);
            } else {
                assert(after[i] == groups[a] && after[j] == groups[b]);
            }
        }
    }
}

proof fn lemma_inserted_none_empty(groups: Seq<Seq<Id>>, group: Seq<Id>)
    requires
        group.len() > 0,
        forall|i: int| 0 <= i < groups.len() ==> #[trigger] groups[i].len() > 0,
    ensures
        forall|i: int| 0 <= i < inserted(groups, group).len() ==> #[trigger] inserted(groups, group)[i].len() > 0,
{
    lemma_place(groups, group);
}

proof fn lemma_merged_no_two_fit(groups: Seq<Seq<Id>>, optimal: nat)
    requires
        forall|i: int| 0 <= i < groups.len() ==> #[trigger] groups[i].len() > 0,
    ensures
        no_two_fit(merged(groups, optimal), optimal),
        forall|i: int| 0 <= i < merged(groups, optimal).len() ==> #[trigger] merged(groups, optimal)[i].len() > 0,
    decreases groups.len(),
{
    if groups.len() > 0 {
        let shorter = groups.drop_last();
        let before = merged(shorter, optimal);
        let group = groups.last();
        assert(groups[groups.len() - 1].len() > 0);
        assert forall|i: int| 0 <= i < shorter.len() implies #[trigger] shorter[i].len() > 0 by {
            assert(groups[i].len() > 0);
        }
        lemma_merged_no_two_fit(shorter, optimal);
        lemma_merged_in_order(shorter, optimal);
        let space = room(optimal, group.len());
        let count = fitting(before, space);
        lemma_fitting(before, space);
        if count > 0 {
            let other = before[count - 1];
            let rest = before.remove(count - 1);
            assert forall|i: int, j: int| 0 <= i < j < rest.len() implies (#[trigger] rest[i]).len() + (
            #[trigger] rest[j]).len() > optimal by {
                let a = if i < count - 1 { i } else { i + 1 };
                let b = if j < count - 1 { j } else { j + 1 };
                assert(rest[i] == before[a] && rest[j] == before[b]);
            }
            assert forall|i: int| 0 <= i < rest.len() implies (#[trigger] rest[i]).len() + (group + other).len()
                > optimal by {
                let a = if i < count - 1 { i } else { i + 1 };
                assert(rest[i] == before[a]);
                if a < count - 1 {
                    assert(before[a].len() + before[count - 1].len() > optimal);
                } else {
                    assert(before[count - 1].len() + before[a].len() > optimal);
                }
            }
            assert forall|i: int| 0 <= i < rest.len() implies #[trigger] rest[i].len() > 0 by {
                let a = if i < count - 1 { i } else { i + 1 };
                assert(rest[i] == before[a]);
            }
            lemma_inserted_no_two_fit(rest, group + other, optimal);
            lemma_inserted_none_empty(rest, group + other);
        } else {
            assert forall|i: int| 0 <= i < before.len() implies (#[trigger] before[i]).len() + group.len()
                > optimal by {
                if i > 0 {
                    assert(precedes(before[0], before[i]));
                }
            }
            lemma_inserted_no_two_fit(before, group, optimal);
            lemma_inserted_none_empty(before, group);
        }
    }
}

/// Where groups are put together as they fit, no two of the teams could be put together as well, and
/// nobody is left alone beside another team, where teams are to have two players or more.
pub proof fn nobody_is_left_alone(groups: Seq<Seq<Id>>, optimal: nat)
    requires
        forall|i: int| 0 <= i < groups.len() ==> #[trigger] groups[i].len() > 0,
    ensures
        no_two_fit(consolidated(merged(groups, optimal)), optimal),
        optimal >= 2 && consolidated(merged(groups, optimal)).len() >= 2 ==> forall|i: int|
            0 <= i < consolidated(merged(groups, optimal)).len() ==> #[trigger] consolidated(
                merged(groups, optimal),
            )[i].len() >= 2,
{
    let before = merged(groups, optimal);
    let after = consolidated(before);
    lemma_merged_no_two_fit(groups, optimal);
    lemma_merged_in_order(groups, optimal);
    if before.len() >= 2 && before[0].len() == 1 {
        let rest = before.skip(2);
        let team = before[0] + before[1];
        assert(before[0].len() + before[1].len() > optimal);
        assert forall|i: int, j: int| 0 <= i < j < rest.len() implies (#[trigger] rest[i]).len() + (
        #[trigger] rest[j]).len() > optimal by {
            assert(before[i + 2].len() + before[j + 2].len() > optimal);
        }
        assert forall|i: int| 0 <= i < rest.len() implies (#[trigger] rest[i]).len() + team.len() > optimal by {
            assert(before[1].len() + before[i + 2].len() > optimal);
        }
        lemma_inserted_no_two_fit(rest, team, optimal);
        if optimal >= 2 {
            assert forall|i: int| 0 <= i < rest.len() implies #[trigger] rest[i].len() >= 2 by {
                assert(precedes(before[1], before[i + 2]));
            }
            lemma_place(rest, team);
        }
    } else {
        assert forall|i: int| 0 <= i < after.len() && after.len() >= 2 implies #[trigger] after[i].len() >= 2 by {
            assert(before[0].len() > 0);
            if i > 0 {
                assert(precedes(before[0], before[i]));
            }
        }
    }
}

proof fn lemma_flat_singles(groups: Seq<Seq<Id>>)
    requires
        forall|i: int| 0 <= i < groups.len() ==> #[trigger] groups[i].len() == 1,
    ensures
        flat(groups).len() == groups.len(),
    decreases groups.len(),
{
    if groups.len() > 0 {
        assert(groups[groups.len() - 1].len() == 1);
        assert forall|i: int| 0 <= i < groups.drop_last().len() implies #[trigger] groups.drop_last()[i].len()
            == 1 by {
            assert(groups[i].len() == 1);
        }
        lemma_flat_singles(groups.drop_last());
    }
}

/// Single players are dealt out to as few teams as hold them, whose sizes differ by one at most.
pub proof fn single_players_are_dealt_out_evenly(groups: Seq<Seq<Id>>, optimal: nat)
    requires
        groups.len() > 0,
        optimal > 0,
        forall|i: int| 0 <= i < groups.len() ==> #[trigger] groups[i].len() == 1,
    ensures
        redistributed(groups, optimal).len() == teams_needed(groups.len(), optimal),
        forall|i: int|
            0 <= i < redistributed(groups, optimal).len() ==> {
                let base = groups.len() / teams_needed(groups.len(), optimal);
                &&& base <= (#[trigger] redistributed(groups, optimal)[i]).len() <= base + 1
                &&& 1 <= redistributed(groups, optimal)[i].len() <= optimal
            },
{
    lemma_team_starts(groups.len(), optimal);
    let count = groups.len();
    let teams = teams_needed(count, optimal);
    assert forall|i: int| 0 <= i < redistributed(groups, optimal).len() implies {
        let base = groups.len() / teams_needed(groups.len(), optimal);
        &&& base <= (#[trigger] redistributed(groups, optimal)[i]).len() <= base + 1
        &&& 1 <= redistributed(groups, optimal)[i].len() <= optimal
    } by {
        let a = team_start(count, teams, i);
        let b = team_start(count, teams, i + 1);
        let part = groups.subrange(a, b);
        assert forall|j: int| 0 <= j < part.len() implies #[trigger] part[j].len() == 1 by {
            assert(groups[a + j].len() == 1);
        }
        lemma_flat_singles(part);
    }
}

/// Where nobody is in two places, groups are apart and hold nobody twice.
pub proof fn lemma_members_are_apart(groups: Seq<Seq<Id>>)
    requires
        forall|id: Id| #[trigger] members(groups).count(id) <= 1,
    ensures
        forall|id: Id, i: int, j: int|
            0 <= i < groups.len() && 0 <= j < groups.len() && #[trigger] groups[i].contains(id)
                && #[trigger] groups[j].contains(id) ==> i == j,
        forall|i: int| 0 <= i < groups.len() ==> #[trigger] groups[i].no_duplicates(),
{
    assert forall|id: Id, i: int, j: int|
        0 <= i < groups.len() && 0 <= j < groups.len() && #[trigger] groups[i].contains(id)
            && #[trigger] groups[j].contains(id) implies i == j by {
        if i != j {
            let rest = groups.remove(i);
            lemma_members_remove(groups, i);
            groups[i].to_multiset_ensures();
            let k = if j < i { j } else { j - 1 };
            assert(rest[k].contains(id));
            lemma_members_count(rest, id);
            assert(members(groups).count(id) <= 1);
        }
    }
    assert forall|i: int| 0 <= i < groups.len() implies #[trigger] groups[i].no_duplicates() by {
        lemma_members_remove(groups, i);
        assert forall|id: Id| groups[i].to_multiset().contains(id) implies groups[i].to_multiset().count(id) == 1 by {
            assert(members(groups).count(id) <= 1);
        }
        groups[i].lemma_multiset_has_no_duplicates_conv();
    }
}

/// One empty group makes one empty team.
pub proof fn lemma_no_players(groups: Seq<Seq<Id>>, optimal: nat)
    requires
        groups == seq![Seq::<Id>::empty()],
    ensures
        balanced(groups, 0, optimal) == groups,
        forall|id: Id| #[trigger] members(groups).count(id) == 0,
{
    let nobody = Seq::<Id>::empty();
    let none = Seq::<Seq<Id>>::empty();
    assert(groups.drop_last() =~= none);
    assert(merged(none, optimal) == none);
    assert(none.insert(0, nobody) =~= groups);
    assert(merged(groups, optimal) == groups);
    nobody.to_multiset_ensures();
    assert(nobody.to_multiset() =~= Multiset::<Id>::empty());
    assert(members(none) == Multiset::<Id>::empty());
    assert(groups.last() == nobody);
}

// ---- groups of players who chose each other ----

/// Whether `a` chose `b`. Without preferences nobody chose anyone.
pub open spec fn chose(preferences: Option<Map<Id, Vec<Id>>>, a: Id, b: Id) -> bool {
    preferences is Some && preferences->0.contains_key(a) && preferences->0[a]@.contains(b)
}

/// Whether the two chose each other.
pub open spec fn mutual(preferences: Option<Map<Id, Vec<Id>>>, a: Id, b: Id) -> bool {
    chose(preferences, a, b) && chose(preferences, b, a)
}

/// Whether `leader` is the smallest of a player and those the player is in mutual choice with.
pub open spec fn is_leader(preferences: Option<Map<Id, Vec<Id>>>, player: Id, leader: Id) -> bool {
    &&& leader == player || mutual(preferences, player, leader)
    &&& leader.0 <= player.0
    &&& forall|other: Id| #[trigger] mutual(preferences, player, other) ==> leader.0 <= other.0
}

/// The smallest of a player and those the player is in mutual choice with.
pub open spec fn leader(preferences: Option<Map<Id, Vec<Id>>>, player: Id) -> Id {
    choose|leader: Id| is_leader(preferences, player, leader)
}

/// A player has one leader.
pub proof fn leader_is_unique(preferences: Option<Map<Id, Vec<Id>>>, player: Id, found: Id)
    requires
        is_leader(preferences, player, found),
    ensures
        leader(preferences, player) == found,
{
    let chosen = leader(preferences, player);
    assert(is_leader(preferences, player, chosen));
    assert(chosen.0 <= found.0 && found.0 <= chosen.0);
}

/// Two players who chose each other, and are in mutual choice with nobody else, have one leader.
pub proof fn pairs_have_one_leader(preferences: Option<Map<Id, Vec<Id>>>, a: Id, b: Id)
    requires
        mutual(preferences, a, b),
        forall|other: Id| #[trigger] mutual(preferences, a, other) ==> other == a || other == b,
        forall|other: Id| #[trigger] mutual(preferences, b, other) ==> other == a || other == b,
    ensures
        leader(preferences, a) == leader(preferences, b),
{
    let smaller = if a.0 <= b.0 { a } else { b };
    assert(mutual(preferences, b, a));
    leader_is_unique(preferences, a, smaller);
    leader_is_unique(preferences, b, smaller);
}

/// A player in mutual choice with nobody leads themselves.
pub proof fn lone_players_lead_themselves(preferences: Option<Map<Id, Vec<Id>>>, player: Id)
    requires
        forall|other: Id| #[trigger] mutual(preferences, player, other) ==> other == player,
    ensures
        leader(preferences, player) == player,
{
    leader_is_unique(preferences, player, player);
}

/// The players that `key` leads, in the order in which they are listed.
pub open spec fn led_by(preferences: Option<Map<Id, Vec<Id>>>, players: Seq<Id>, key: Id) -> Seq<Id> {
    players.filter(|player: Id| leader(preferences, player) == key)
}

/// Whether `groups` hold the players by their leaders, which are `keys`, each in random order: larger
/// groups first, and those of one size by falling leader.
pub open spec fn grouped_by(
    preferences: Option<Map<Id, Vec<Id>>>,
    players: Seq<Id>,
    groups: Seq<Seq<Id>>,
    keys: Seq<Id>,
) -> bool {
    &&& keys.len() == groups.len()
    &&& keys.no_duplicates()
    &&& forall|i: int|
        0 <= i < groups.len() ==> {
            &&& (#[trigger] groups[i]).to_multiset() == led_by(preferences, players, keys[i]).to_multiset()
            &&& was_shuffled(led_by(preferences, players, keys[i]), groups[i])
            &&& groups[i].len() > 0
        }
    &&& forall|i: int| 0 <= i < players.len() ==> keys.contains(leader(preferences, #[trigger] players[i]))
    &&& forall|i: int, j: int|
        0 <= i < j < groups.len() ==> (#[trigger] groups[i]).len() > (#[trigger] groups[j]).len() || (
        groups[i].len() == groups[j].len() && keys[i].0 > keys[j].0)
}

/// Whether `groups` hold the players by their leaders; where nobody plays, there is one empty group.
pub open spec fn is_grouping(
    preferences: Option<Map<Id, Vec<Id>>>,
    players: Seq<Id>,
    groups: Seq<Seq<Id>>,
) -> bool {
    if players.len() == 0 {
        groups == seq![Seq::<Id>::empty()]
    } else {
        exists|keys: Seq<Id>| grouped_by(preferences, players, groups, keys)
    }
}

proof fn lemma_filter_count(players: Seq<Id>, pred: spec_fn(Id) -> bool, id: Id)
    ensures
        players.filter(pred).to_multiset().count(id) == if pred(id) {
            players.to_multiset().count(id)
        } else {
            0
        },
    decreases players.len(),
{
    reveal(Seq::filter);
    players.to_multiset_ensures();
    players.filter(pred).to_multiset_ensures();
    if players.len() > 0 {
        let rest = players.drop_last();
        lemma_filter_count(rest, pred, id);
        rest.to_multiset_ensures();
        rest.filter(pred).to_multiset_ensures();
        assert(rest.push(players.last()) =~= players);
        assert(rest.push(players.last()).to_multiset() =~= rest.to_multiset().insert(players.last()));
        if pred(players.last()) {
            assert(rest.filter(pred).push(players.last()).to_multiset() =~= rest.filter(pred).to_multiset().insert(
                players.last(),
            ));
        }
    } else {
        assert(players.to_multiset() =~= Multiset::empty());
        assert(players.filter(pred) =~= players);
    }
}

proof fn lemma_grouped_count(
    preferences: Option<Map<Id, Vec<Id>>>,
    players: Seq<Id>,
    groups: Seq<Seq<Id>>,
    keys: Seq<Id>,
    n: int,
    id: Id,
)
    requires
        grouped_by(preferences, players, groups, keys),
        0 <= n <= groups.len(),
    ensures
        members(groups.take(n)).count(id) == if keys.take(n).contains(leader(preferences, id)) {
            players.to_multiset().count(id)
        } else {
            0
        },
    decreases n,
{
    let key = leader(preferences, id);
    if n > 0 {
        lemma_grouped_count(preferences, players, groups, keys, n - 1, id);
        assert(groups.take(n).drop_last() =~= groups.take(n - 1));
        assert(groups.take(n).last() == groups[n - 1]);
        lemma_filter_count(players, |player: Id| leader(preferences, player) == keys[n - 1], id);
        if keys.take(n).contains(key) {
            let prefix = keys.take(n);
            let i = choose|i: int| 0 <= i < prefix.len() && prefix[i] == key;
            if i < n - 1 {
                assert(keys.take(n - 1)[i] == key);
                assert(keys[i] != keys[n - 1]);
            }
        }
        if keys.take(n - 1).contains(key) {
            let prefix = keys.take(n - 1);
            let i = choose|i: int| 0 <= i < prefix.len() && prefix[i] == key;
            assert(keys.take(n)[i] == key);
            assert(keys[i] != keys[n - 1]);
        }
        if keys[n - 1] == key {
            assert(keys.take(n)[n - 1] == key);
        }
    }
}

/// Grouping loses nobody and adds nobody.
pub proof fn groups_hold_the_players(
    preferences: Option<Map<Id, Vec<Id>>>,
    players: Seq<Id>,
    groups: Seq<Seq<Id>>,
)
    requires
        is_grouping(preferences, players, groups),
    ensures
        members(groups) == players.to_multiset(),
        groups.len() > 0,
        players.len() > 0 && players.no_duplicates() ==> disjoint(groups),
{
    players.to_multiset_ensures();
    if players.len() == 0 {
        assert(players =~= Seq::<Id>::empty());
        assert(groups.drop_last() =~= Seq::<Seq<Id>>::empty());
        assert(groups.last() == players);
        assert(members(groups.drop_last()) == Multiset::<Id>::empty());
        assert(members(groups) =~= players.to_multiset());
    } else {
        let keys = choose|keys: Seq<Id>| grouped_by(preferences, players, groups, keys);
        assert forall|id: Id| members(groups).count(id) == players.to_multiset().count(id) by {
            lemma_grouped_count(preferences, players, groups, keys, groups.len() as int, id);
            assert(groups.take(groups.len() as int) =~= groups);
            assert(keys.take(groups.len() as int) =~= keys);
            if players.contains(id) {
                let i = choose|i: int| 0 <= i < players.len() && players[i] == id;
                assert(keys.contains(leader(preferences, players[i])));
            }
        }
        assert(members(groups) =~= players.to_multiset());
        assert(keys.contains(leader(preferences, players[0])));
        if players.no_duplicates() {
            players.lemma_multiset_has_no_duplicates();
            assert forall|id: Id| #[trigger] members(groups).count(id) <= 1 by {
                if players.to_multiset().count(id) > 0 {
                    assert(players.to_multiset().contains(id));
                }
            }
        }
    }
}

/// Where no two players chose each other, every group is a single player.
pub proof fn groups_without_choices_are_single(
    preferences: Option<Map<Id, Vec<Id>>>,
    players: Seq<Id>,
    groups: Seq<Seq<Id>>,
)
    requires
        is_grouping(preferences, players, groups),
        players.len() > 0,
        players.no_duplicates(),
        forall|a: Id, b: Id| #[trigger] mutual(preferences, a, b) ==> a == b,
    ensures
        groups.len() == players.len(),
        forall|i: int| 0 <= i < groups.len() ==> #[trigger] groups[i].len() == 1,
{
    groups_hold_the_players(preferences, players, groups);
    let keys = choose|keys: Seq<Id>| grouped_by(preferences, players, groups, keys);
    assert forall|i: int| 0 <= i < groups.len() implies #[trigger] groups[i].len() == 1 by {
        let group = groups[i];
        let led = led_by(preferences, players, keys[i]);
        group.to_multiset_ensures();
        led.to_multiset_ensures();
        let pred = |player: Id| leader(preferences, player) == keys[i];
        crate::seqs::lemma_filter_no_duplicates(players, pred);
        assert forall|player: Id| led.contains(player) implies player == keys[i] by {
            assert(pred(player));
            lone_players_lead_themselves(preferences, player);
        }
        if led.len() > 1 {
            assert(led.contains(led[0]) && led.contains(led[1]));
        }
    }
    lemma_members_len(groups);
    players.to_multiset_ensures();
}

proof fn lemma_members_len(groups: Seq<Seq<Id>>)
    requires
        forall|i: int| 0 <= i < groups.len() ==> #[trigger] groups[i].len() == 1,
    ensures
        members(groups).len() == groups.len(),
    decreases groups.len(),
{
    if groups.len() > 0 {
        assert(groups[groups.len() - 1].len() == 1);
        groups.last().to_multiset_ensures();
        assert forall|i: int| 0 <= i < groups.drop_last().len() implies #[trigger] groups.drop_last()[i].len()
            == 1 by {
            assert(groups[i].len() == 1);
        }
        lemma_members_len(groups.drop_last());
    }
}

proof fn lemma_members_exceed(groups: Seq<Seq<Id>>, big: int)
    requires
        forall|i: int| 0 <= i < groups.len() ==> #[trigger] groups[i].len() > 0,
        big < groups.len(),
        big >= 0 ==> groups[big].len() > 1,
    ensures
        members(groups).len() >= groups.len(),
        big >= 0 ==> members(groups).len() > groups.len(),
    decreases groups.len(),
{
    if groups.len() > 0 {
        let rest = groups.drop_last();
        assert(groups[groups.len() - 1].len() > 0);
        groups.last().to_multiset_ensures();
        assert forall|i: int| 0 <= i < rest.len() implies #[trigger] rest[i].len() > 0 by {
            assert(groups[i].len() > 0);
        }
        lemma_members_exceed(rest, if big < rest.len() { big } else { -1 });
    }
}

/// Whether the two are in the team.
pub open spec fn holds_both(team: Seq<Id>, a: Id, b: Id) -> bool {
    team.contains(a) && team.contains(b)
}

/// Players with one leader are in one team.
pub proof fn those_led_alike_stay_together(
    preferences: Option<Map<Id, Vec<Id>>>,
    players: Seq<Id>,
    groups: Seq<Seq<Id>>,
    optimal: nat,
    a: Id,
    b: Id,
)
    requires
        is_grouping(preferences, players, groups),
        players.contains(a),
        players.contains(b),
        a != b,
        leader(preferences, a) == leader(preferences, b),
    ensures
        exists|i: int|
            0 <= i < balanced(groups, players.len(), optimal).len() && #[trigger] holds_both(
                balanced(groups, players.len(), optimal)[i],
                a,
                b,
            ),
{
    groups_hold_the_players(preferences, players, groups);
    let keys = choose|keys: Seq<Id>| grouped_by(preferences, players, groups, keys);
    let key = leader(preferences, a);
    let at = choose|at: int| 0 <= at < players.len() && players[at] == a;
    assert(keys.contains(leader(preferences, players[at])));
    let i = choose|i: int| 0 <= i < keys.len() && keys[i] == key;
    let group = groups[i];
    let led = led_by(preferences, players, key);
    let pred = |player: Id| leader(preferences, player) == key;
    players.to_multiset_ensures();
    group.to_multiset_ensures();
    led.to_multiset_ensures();
    lemma_filter_count(players, pred, a);
    lemma_filter_count(players, pred, b);
    assert(players.to_multiset().count(a) > 0 && players.to_multiset().count(b) > 0);
    assert(group.to_multiset().count(a) > 0 && group.to_multiset().count(b) > 0);
    assert(group.contains(a) && group.contains(b));
    assert(group.len() > 1) by {
        let j = choose|j: int| 0 <= j < group.len() && group[j] == a;
        let k = choose|k: int| 0 <= k < group.len() && group[k] == b;
        assert(j != k);
    }
    lemma_members_exceed(groups, i);
    merging_keeps_groups_together(groups, optimal, i);
    let teams = balanced(groups, players.len(), optimal);
    let k = choose|k: int| 0 <= k < teams.len() && #[trigger] holds_all(teams[k], group);
    assert(holds_both(teams[k], a, b));
}

// ---- lists of groups ----

/// `a` followed by `b`.
pub fn concatenated(a: &Vec<Id>, b: &Vec<Id>) -> (both: Vec<Id>)
    ensures
        both@ == a@ + b@,
{
    let mut both: Vec<Id> = Vec::new();
    let mut i: usize = 0;
    while i < a.len()
        invariant
            i <= a.len(),
            both@ == a@.take(i as int),
        decreases a.len() - i,
    {
        both.push(a[i]);
        i = i + 1;
        assert(both@ =~= a@.take(i as int));
    }
    let mut j: usize = 0;
    while j < b.len()
        invariant
            j <= b.len(),
            both@ == a@ + b@.take(j as int),
        decreases b.len() - j,
    {
        both.push(b[j]);
        j = j + 1;
        assert(both@ =~= a@ + b@.take(j as int));
    }
    both
}

fn comes_before(a: &Vec<Id>, b: &Vec<Id>) -> (before: bool)
    ensures
        before == precedes(a@, b@),
{
    if a.len() != b.len() {
        return a.len() < b.len();
    }
    let mut i: usize = 0;
    assert(a@.skip(0) =~= a@);
    assert(b@.skip(0) =~= b@);
    while i < a.len()
        invariant
            i <= a.len(),
            a.len() == b.len(),
            lex_less(a@, b@) == lex_less(a@.skip(i as int), b@.skip(i as int)),
        decreases a.len() - i,
    {
        assert(a@.skip(i as int)[0] == a@[i as int]);
        assert(b@.skip(i as int)[0] == b@[i as int]);
        if a[i].0 != b[i].0 {
            return a[i].0 < b[i].0;
        }
        assert(a@.skip(i as int).drop_first() =~= a@.skip(i + 1));
        assert(b@.skip(i as int).drop_first() =~= b@.skip(i + 1));
        i = i + 1;
    }
    false
}

/// Groups of players, each once, the smaller ones first.
#[derive(Debug)]
pub struct PreferenceGroups {
    groups: Vec<Vec<Id>>,
}

impl View for PreferenceGroups {
    type V = Seq<Seq<Id>>;

    closed spec fn view(&self) -> Seq<Seq<Id>> {
        views(self.groups@)
    }
}

impl PreferenceGroups {
    /// No groups.
    pub fn new() -> (groups: Self)
        ensures
            groups@ == Seq::<Seq<Id>>::empty(),
    {
        let groups = PreferenceGroups { groups: Vec::new() };
        assert(groups@ =~= Seq::<Seq<Id>>::empty());
        groups
    }

    /// Puts a group at its place, unless it is there.
    pub fn insert(&mut self, group: Vec<Id>)
        ensures
            final(self)@ == inserted(old(self)@, group@),
    {
        let mut i: usize = 0;
        assert(self@.skip(0) =~= self@);
        while i < self.groups.len() && comes_before(&self.groups[i], &group)
            invariant
                self@ == old(self)@,
                i <= self.groups.len(),
                place(self@, group@) == i + place(self@.skip(i as int), group@),
            ensures
                self@ == old(self)@,
                i <= self.groups.len(),
                place(self@, group@) == i,
            decreases self.groups.len() - i,
        {
            assert(self@.skip(i as int)[0] == self.groups[i as int]@);
            assert(self@.skip(i as int).drop_first() =~= self@.skip(i + 1));
            i = i + 1;
        }
        proof {
            lemma_place(self@, group@);
        }
        if i < self.groups.len() && !comes_before(&group, &self.groups[i]) {
            proof {
                groups_are_ordered(self.groups[i as int]@, group@);
            }
        } else {
            proof {
                if i < self.groups.len() {
                    groups_are_ordered(group@, self.groups[i as int]@);
                }
            }
            let ghost before = self.groups@;
            self.groups.insert(i, group);
            assert(self@ =~= views(before).insert(i as int, group@));
        }
    }

    /// How many of the first groups have at most `room` players.
    pub fn count_fitting(&self, room: usize) -> (count: usize)
        ensures
            count == fitting(self@, room as nat),
            count <= self@.len(),
    {
        let mut i: usize = 0;
        assert(self@.skip(0) =~= self@);
        while i < self.groups.len() && self.groups[i].len() <= room
            invariant
                i <= self.groups.len(),
                fitting(self@, room as nat) == i + fitting(self@.skip(i as int), room as nat),
            ensures
                i <= self.groups.len(),
                fitting(self@, room as nat) == i,
            decreases self.groups.len() - i,
        {
            assert(self@.skip(i as int)[0] == self.groups[i as int]@);
            assert(self@.skip(i as int).drop_first() =~= self@.skip(i + 1));
            i = i + 1;
        }
        i
    }

    /// Takes a group out.
    pub fn remove(&mut self, i: usize) -> (group: Vec<Id>)
        requires
            i < old(self)@.len(),
        ensures
            group@ == old(self)@[i as int],
            final(self)@ == old(self)@.remove(i as int),
    {
        let ghost before = self.groups@;
        let group = self.groups.remove(i);
        assert(self@ =~= views(before).remove(i as int));
        group
    }

    /// The number of groups.
    pub fn len(&self) -> (len: usize)
        ensures
            len == self@.len(),
    {
        self.groups.len()
    }

    /// The number of players in a group.
    pub fn size(&self, i: usize) -> (size: usize)
        requires
            i < self@.len(),
        ensures
            size == self@[i as int].len(),
    {
        self.groups[i].len()
    }

    /// The groups as a list.
    pub fn into_vec(self) -> (groups: Vec<Vec<Id>>)
        ensures
            views(groups@) == self@,
    {
        self.groups
    }
}

// ---- what players can count on ----

proof fn lemma_some_leader(preferences: Option<Map<Id, Vec<Id>>>, player: Id, found: Id)
    requires
        found == player || mutual(preferences, player, found),
        found.0 <= player.0,
    ensures
        exists|leader: Id| is_leader(preferences, player, leader),
    decreases found.0,
{
    if forall|other: Id| #[trigger] mutual(preferences, player, other) ==> found.0 <= other.0 {
        assert(is_leader(preferences, player, found));
    } else {
        let other = choose|other: Id| #[trigger] mutual(preferences, player, other) && other.0 < found.0;
        lemma_some_leader(preferences, player, other);
    }
}

/// Players are led by the smallest of themselves and those whom they chose and who chose them.
pub proof fn the_smallest_leads(choices: Map<Id, Vec<Id>>, player: Id, other: Id)
    ensures
        ({
            let leader = leader(Some(choices), player);
            &&& leader == player || (choices.contains_key(player) && choices[player]@.contains(leader)
                && choices.contains_key(leader) && choices[leader]@.contains(player))
            &&& leader.0 <= player.0
            &&& choices.contains_key(player) && choices[player]@.contains(other) && choices.contains_key(other)
                && choices[other]@.contains(player) ==> leader.0 <= other.0
        }),
        leader(None, player) == player,
{
    lemma_some_leader(Some(choices), player, player);
    let found = leader(Some(choices), player);
    assert(is_leader(Some(choices), player, found));
    assert(mutual(Some(choices), player, other) ==> found.0 <= other.0);
    lone_players_lead_themselves(None, player);
}

/// Larger groups are placed first, and players are grouped with exactly those led by the same player.
pub proof fn larger_groups_come_first(
    preferences: Option<Map<Id, Vec<Id>>>,
    players: Seq<Id>,
    groups: Seq<Seq<Id>>,
    i: int,
    j: int,
    a: Id,
    b: Id,
)
    requires
        is_grouping(preferences, players, groups),
        0 <= i < j < groups.len(),
        groups[i].contains(a),
    ensures
        groups[i].len() >= groups[j].len(),
        groups[j].len() > 0,
        groups[i].contains(b) <==> players.contains(b) && leader(preferences, b) == leader(preferences, a),
        groups[j].contains(b) ==> leader(preferences, b) != leader(preferences, a),
{
    let keys = choose|keys: Seq<Id>| grouped_by(preferences, players, groups, keys);
    lemma_group_members(preferences, players, groups, keys, i, a);
    lemma_group_members(preferences, players, groups, keys, i, b);
    lemma_group_members(preferences, players, groups, keys, j, b);
    assert(groups[i].len() >= groups[j].len());
}

proof fn lemma_group_members(
    preferences: Option<Map<Id, Vec<Id>>>,
    players: Seq<Id>,
    groups: Seq<Seq<Id>>,
    keys: Seq<Id>,
    i: int,
    id: Id,
)
    requires
        grouped_by(preferences, players, groups, keys),
        0 <= i < groups.len(),
    ensures
        groups[i].contains(id) <==> players.contains(id) && leader(preferences, id) == keys[i],
{
    let pred = |player: Id| leader(preferences, player) == keys[i];
    let led = led_by(preferences, players, keys[i]);
    lemma_filter_count(players, pred, id);
    groups[i].to_multiset_ensures();
    led.to_multiset_ensures();
    players.to_multiset_ensures();
    assert(groups[i].to_multiset() == led.to_multiset());
    assert(groups[i].contains(id) <==> groups[i].to_multiset().count(id) > 0);
    assert(players.contains(id) <==> players.to_multiset().count(id) > 0);
}

/// A group joins a largest of the teams that it fits beside, within the size aimed at; where it fits beside
/// none it makes a team of its own.
pub proof fn groups_join_a_largest_that_fits(teams: Seq<Seq<Id>>, group: Seq<Id>, optimal: nat)
    requires
        in_order(teams),
        group.len() > 0,
        forall|i: int| 0 <= i < teams.len() ==> #[trigger] teams[i].len() > 0,
    ensures
        (exists|i: int| 0 <= i < teams.len() && #[trigger] teams[i].len() + group.len() <= optimal) ==> exists|k: int| {
            &&& 0 <= k < teams.len()
            &&& #[trigger] teams[k].len() + group.len() <= optimal
            &&& forall|i: int|
                0 <= i < teams.len() && #[trigger] teams[i].len() + group.len() <= optimal ==> teams[i].len()
                    <= teams[k].len()
            &&& joined_by(teams, group, optimal).contains(group + teams[k])
            &&& forall|i: int|
                0 <= i < teams.len() && i != k ==> joined_by(teams, group, optimal).contains(#[trigger] teams[i])
            &&& joined_by(teams, group, optimal).len() <= teams.len()
        },
        (forall|i: int| 0 <= i < teams.len() ==> #[trigger] teams[i].len() + group.len() > optimal) ==> {
            &&& joined_by(teams, group, optimal).contains(group)
            &&& forall|i: int| 0 <= i < teams.len() ==> joined_by(teams, group, optimal).contains(#[trigger] teams[i])
            &&& joined_by(teams, group, optimal).len() <= teams.len() + 1
        },
{
    let room = room(optimal, group.len());
    lemma_fitting(teams, room);
    let count = fitting(teams, room);
    if exists|i: int| 0 <= i < teams.len() && #[trigger] teams[i].len() + group.len() <= optimal {
        let i = choose|i: int| 0 <= i < teams.len() && #[trigger] teams[i].len() + group.len() <= optimal;
        joins_a_largest_that_fits(teams, room, i);
        let k = count - 1;
        let rest = teams.remove(k);
        lemma_inserted_contains(rest, group + teams[k]);
        lemma_place(rest, group + teams[k]);
        assert forall|j: int| 0 <= j < teams.len() && #[trigger] teams[j].len() + group.len() <= optimal implies teams[j].len()
            <= teams[k].len() by {
            joins_a_largest_that_fits(teams, room, j);
        }
        assert forall|j: int| 0 <= j < teams.len() && j != k implies joined_by(teams, group, optimal).contains(
            #[trigger] teams[j],
        ) by {
            assert(teams[j] == rest[if j < k { j } else { j - 1 }]);
        }
        assert(teams[k].len() + group.len() <= optimal);
    } else {
        if count > 0 {
            assert(teams[0].len() <= room);
            assert(teams[0].len() > 0);
            assert(teams[0].len() + group.len() <= optimal);
        }
        lemma_inserted_contains(teams, group);
        lemma_place(teams, group);
    }
}

/// As few teams are made of single players as hold them.
pub proof fn no_team_too_many(count: nat, optimal: nat)
    requires
        count > 0,
        optimal > 0,
    ensures
        count <= teams_needed(count, optimal) * optimal,
        (teams_needed(count, optimal) - 1) * optimal < count,
{
    let c = count as int;
    let o = optimal as int;
    let teams = teams_needed(count, optimal) as int;
    vstd::arithmetic::div_mod::lemma_fundamental_div_mod(c, o);
    assert(c <= teams * o && (teams - 1) * o < c) by (nonlinear_arith)
        requires
            c > 0,
            o > 0,
            c == o * (c / o) + c % o,
            0 <= c % o < o,
            teams == c / o + if c % o > 0 { 1int } else { 0int },
    ;
}

/// Teams of single players are listed by size, the smallest first, and differ by one at most.
pub proof fn even_teams_are_listed_by_size(groups: Seq<Seq<Id>>, optimal: nat, i: int, j: int)
    requires
        groups.len() > 0,
        optimal > 0,
        forall|i: int| 0 <= i < groups.len() ==> #[trigger] groups[i].len() == 1,
        0 <= i < j < redistributed(groups, optimal).len(),
    ensures
        redistributed(groups, optimal)[i].len() <= redistributed(groups, optimal)[j].len()
            <= redistributed(groups, optimal)[i].len() + 1,
        1 <= redistributed(groups, optimal)[i].len(),
        redistributed(groups, optimal)[j].len() <= optimal,
{
    single_players_are_dealt_out_evenly(groups, optimal);
    lemma_team_starts(groups.len(), optimal);
    lemma_even_team(groups, optimal, i);
    lemma_even_team(groups, optimal, j);
}

proof fn lemma_even_team(groups: Seq<Seq<Id>>, optimal: nat, i: int)
    requires
        groups.len() > 0,
        optimal > 0,
        forall|i: int| 0 <= i < groups.len() ==> #[trigger] groups[i].len() == 1,
        0 <= i < redistributed(groups, optimal).len(),
    ensures
        ({
            let count = groups.len();
            let teams = teams_needed(count, optimal);
            redistributed(groups, optimal)[i].len() == team_start(count, teams, i + 1) - team_start(count, teams, i)
        }),
{
    lemma_team_starts(groups.len(), optimal);
    let count = groups.len();
    let teams = teams_needed(count, optimal);
    let a = team_start(count, teams, i);
    let b = team_start(count, teams, i + 1);
    let part = groups.subrange(a, b);
    assert forall|j: int| 0 <= j < part.len() implies #[trigger] part[j].len() == 1 by {
        assert(groups[a + j].len() == 1);
    }
    lemma_flat_singles(part);
}

proof fn lemma_flat_subrange(groups: Seq<Seq<Id>>, a: int, b: int)
    requires
        0 <= a <= b <= groups.len(),
    ensures
        flat(groups.take(b)) == flat(groups.take(a)) + flat(groups.subrange(a, b)),
    decreases b - a,
{
    if a < b {
        lemma_flat_subrange(groups, a, b - 1);
        assert(groups.take(b).drop_last() =~= groups.take(b - 1));
        assert(groups.subrange(a, b).drop_last() =~= groups.subrange(a, b - 1));
        assert(flat(groups.take(b)) =~= flat(groups.take(a)) + flat(groups.subrange(a, b)));
    } else {
        assert(groups.subrange(a, b) =~= Seq::<Seq<Id>>::empty());
        assert(flat(groups.take(b)) =~= flat(groups.take(a)) + flat(groups.subrange(a, b)));
    }
}

proof fn lemma_dealt_in_order(groups: Seq<Seq<Id>>, optimal: nat, n: nat)
    requires
        groups.len() > 0,
        optimal > 0,
        n <= teams_needed(groups.len(), optimal),
    ensures
        flat(redistributed(groups, optimal).take(n as int)) == flat(
            groups.take(team_start(groups.len(), teams_needed(groups.len(), optimal), n as int)),
        ),
    decreases n,
{
    let count = groups.len();
    let needed = teams_needed(count, optimal);
    let teams = redistributed(groups, optimal);
    lemma_team_starts(count, optimal);
    if n > 0 {
        let i = n - 1;
        lemma_dealt_in_order(groups, optimal, i as nat);
        let a = team_start(count, needed, i);
        let b = team_start(count, needed, i + 1);
        assert(0 <= a <= b <= count);
        assert(teams.take(n as int).drop_last() =~= teams.take(i));
        lemma_flat_subrange(groups, a, b);
    } else {
        assert(teams.take(0) =~= Seq::<Seq<Id>>::empty());
        assert(groups.take(0) =~= Seq::<Seq<Id>>::empty());
    }
}

/// Players who are dealt out keep their order: the teams one after the other are the groups one after the
/// other.
pub proof fn players_are_dealt_out_in_order(groups: Seq<Seq<Id>>, optimal: nat)
    requires
        groups.len() > 0,
        optimal > 0,
    ensures
        flat(redistributed(groups, optimal)) == flat(groups),
{
    let teams = redistributed(groups, optimal);
    lemma_team_starts(groups.len(), optimal);
    lemma_dealt_in_order(groups, optimal, teams.len());
    assert(teams.take(teams.len() as int) =~= teams);
    assert(groups.take(groups.len() as int) =~= groups);
}

/// Teams that groups make are listed by size, the smallest first; where there are as many groups as
/// players, their sizes differ by one at most.
pub proof fn teams_are_listed_by_size(groups: Seq<Seq<Id>>, players_count: nat, optimal: nat, i: int, j: int)
    requires
        groups.len() > 0,
        optimal > 0,
        groups.len() == players_count ==> forall|i: int| 0 <= i < groups.len() ==> #[trigger] groups[i].len() == 1,
        0 <= i < j < balanced(groups, players_count, optimal).len(),
    ensures
        balanced(groups, players_count, optimal)[i].len() <= balanced(groups, players_count, optimal)[j].len(),
        groups.len() == players_count ==> balanced(groups, players_count, optimal)[j].len() <= balanced(
            groups,
            players_count,
            optimal,
        )[i].len() + 1,
{
    if groups.len() == players_count {
        even_teams_are_listed_by_size(groups, optimal, i, j);
    } else {
        merged_teams_are_listed_by_size(groups, optimal);
        let teams = consolidated(merged(groups, optimal));
        assert(precedes(teams[i], teams[j]));
    }
}

/// Smaller groups come first; of two of one size, the first place where they differ decides, by the smaller
/// identifier.
pub proof fn the_first_difference_decides(a: Seq<Id>, b: Seq<Id>, at: int)
    requires
        a.len() == b.len(),
        0 <= at < a.len(),
        forall|i: int| 0 <= i < at ==> a[i] == b[i],
        a[at].0 < b[at].0,
    ensures
        precedes(a, b),
        !precedes(b, a),
    decreases at,
{
    lemma_first_difference(a, b, at);
    groups_are_ordered(a, b);
}

proof fn lemma_first_difference(a: Seq<Id>, b: Seq<Id>, at: int)
    requires
        a.len() == b.len(),
        0 <= at < a.len(),
        forall|i: int| 0 <= i < at ==> a[i] == b[i],
        a[at].0 < b[at].0,
    ensures
        lex_less(a, b),
    decreases at,
{
    if at > 0 {
        assert(a[0] == b[0]);
        let rest = a.drop_first();
        let other = b.drop_first();
        assert forall|i: int| 0 <= i < at - 1 implies rest[i] == other[i] by {
            assert(a[i + 1] == b[i + 1]);
        }
        lemma_first_difference(rest, other, at - 1);
    }
}

/// A smaller group comes before a larger one.
pub proof fn smaller_groups_come_first(a: Seq<Id>, b: Seq<Id>)
    requires
        a.len() < b.len(),
    ensures
        precedes(a, b),
        !precedes(b, a),
{
}

/// A single player who is left is put in front of the smallest other team; else teams stay as they are.
pub proof fn single_players_join_the_smallest_team(teams: Seq<Seq<Id>>)
    requires
        in_order(teams),
    ensures
        teams.len() >= 2 && teams[0].len() == 1 ==> {
            &&& consolidated(teams).contains(teams[0] + teams[1])
            &&& forall|i: int| 2 <= i < teams.len() ==> consolidated(teams).contains(#[trigger] teams[i])
            &&& consolidated(teams).len() <= teams.len() - 1
            &&& forall|i: int| 1 <= i < teams.len() ==> teams[1].len() <= #[trigger] teams[i].len()
        },
        !(teams.len() >= 2 && teams[0].len() == 1) ==> consolidated(teams) == teams,
{
    if teams.len() >= 2 && teams[0].len() == 1 {
        let rest = teams.skip(2);
        lemma_inserted_contains(rest, teams[0] + teams[1]);
        lemma_place(rest, teams[0] + teams[1]);
        assert forall|i: int| 2 <= i < teams.len() implies consolidated(teams).contains(#[trigger] teams[i]) by {
            assert(rest[i - 2] == teams[i]);
        }
        assert forall|i: int| 1 <= i < teams.len() implies teams[1].len() <= #[trigger] teams[i].len() by {
            if i > 1 {
                assert(precedes(teams[1], teams[i]));
            }
        }
    }
}

/// Of groups of one size, the one with the larger leader comes first.
pub proof fn equal_groups_come_by_leader(
    preferences: Option<Map<Id, Vec<Id>>>,
    players: Seq<Id>,
    groups: Seq<Seq<Id>>,
    i: int,
    j: int,
)
    requires
        is_grouping(preferences, players, groups),
        0 <= i < j < groups.len(),
        groups[i].len() == groups[j].len(),
    ensures
        leader(preferences, groups[i][0]).0 > leader(preferences, groups[j][0]).0,
{
    let keys = choose|keys: Seq<Id>| grouped_by(preferences, players, groups, keys);
    assert(groups[i].len() > 0 && groups[j].len() > 0);
    assert(groups[i].contains(groups[i][0]));
    assert(groups[j].contains(groups[j][0]));
    lemma_group_members(preferences, players, groups, keys, i, groups[i][0]);
    lemma_group_members(preferences, players, groups, keys, j, groups[j][0]);
}

/// Teams take their members group by group: one group after the other, each in its own order.
pub proof fn groups_follow_each_other(groups: Seq<Seq<Id>>, group: Seq<Id>)
    ensures
        flat(Seq::<Seq<Id>>::empty()).len() == 0,
        flat(groups.push(group)) == flat(groups) + group,
{
    assert(groups.push(group).drop_last() =~= groups);
}

} // verus!
