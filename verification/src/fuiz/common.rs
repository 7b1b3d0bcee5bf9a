//! What all kinds of slides share.
use std::time::Duration;

use vstd::prelude::*;
use vstd::std_specs::bits::{axiom_u64_leading_zeros, axiom_u64_trailing_zeros};
use vstd::arithmetic::power2::{lemma2_to64_rest, lemma_pow2_pos, lemma_pow2_strictly_increases, pow2};
use vstd::bits::{lemma_u64_shl_is_mul, lemma_u64_shr_is_div};

use crate::fuiz::config::SlideAction;
use crate::game::{IncomingHostMessage, IncomingMessage, IncomingPlayerMessage};
use crate::id_map::IdMap;
use crate::leaderboard::{enlisted, tallied, Leaderboard};
use crate::seqs::{lemma_count_keys, lemma_filter_take};
use crate::session::{Audience, Effect, Stage};
use crate::time::{nanos, Timestamp};
use crate::watcher::{reachable_no_duplicates, Id, ValueKind, Watchers};

verus! {

/// The quotient and remainder of `factor * numerator` by `denominator`.
pub fn scale(factor: u64, numerator: u128, denominator: u128) -> (result: (u64, u128))
    requires
        0 < denominator < 0x8000_0000_0000_0000_0000_0000_0000,
        numerator <= denominator,
    ensures
        result.0 == (factor * numerator) / (denominator as int),
        result.1 == (factor * numerator) % (denominator as int),
        result.0 <= factor,
    decreases factor,
{
    if factor == 0 {
        assert(0 * numerator == 0);
        assert(0int / denominator as int == 0) by (nonlinear_arith) requires denominator > 0;
        assert(0int % denominator as int == 0) by (nonlinear_arith) requires denominator > 0;
        return (0, 0);
    }
    let (half_quotient, half_remainder) = scale(factor / 2, numerator, denominator);
    let mut quotient: u64 = half_quotient * 2;
    let mut remainder: u128 = half_remainder * 2;
    let ghost f = factor as int;
    let ghost n = numerator as int;
    let ghost d = denominator as int;
    proof {
        vstd::arithmetic::div_mod::lemma_fundamental_div_mod((f / 2) * n, d);
        assert(((f / 2) * n) * 2 == (2 * (f / 2)) * n) by (nonlinear_arith);
        assert(d * half_quotient * 2 == d * (half_quotient * 2)) by (nonlinear_arith);
    }
    if factor % 2 == 1 {
        remainder = remainder + numerator;
        assert(f * n == (2 * (f / 2)) * n + n) by (nonlinear_arith) requires f == 2 * (f / 2) + 1;
    }
    assert(f * n == d * quotient + remainder);
    if remainder >= denominator {
        remainder = remainder - denominator;
        assert(d * (quotient + 1) == d * quotient + d) by (nonlinear_arith);
        if remainder >= denominator {
            remainder = remainder - denominator;
            assert(d * (quotient + 2) == d * quotient + d + d) by (nonlinear_arith);
            proof { bound(f, n, d, quotient + 2, remainder as int); }
            quotient = quotient + 2;
        } else {
            proof { bound(f, n, d, quotient + 1, remainder as int); }
            quotient = quotient + 1;
        }
    } else {
        proof { bound(f, n, d, quotient as int, remainder as int); }
    }
    proof {
        vstd::arithmetic::mul::lemma_mul_is_commutative(d, quotient as int);
        vstd::arithmetic::div_mod::lemma_fundamental_div_mod_converse(f * n, d, quotient as int, remainder as int);
    }
    (quotient, remainder)
}

proof fn bound(f: int, n: int, d: int, q: int, r: int)
    by (nonlinear_arith)
    requires
        f >= 0,
        0 <= n <= d,
        d > 0,
        0 <= r < d,
        f * n == d * q + r,
    ensures
        q <= f,
{
}

/// The points for an answer that took `taken` nanoseconds out of `full`: all of them at once, half
/// of them at the end of the window, none from twice the window on; all of them without a window.
pub open spec fn slide_score(full: Option<nat>, taken: nat, points: nat) -> nat {
    match full {
        None => points,
        Some(window) => if window == 0 || taken >= 2 * window {
            0
        } else {
            ((points * (2 * window - taken)) / (2 * window as int)) as nat
        },
    }
}

/// The points for an answer that took `taken_duration` out of `full_duration`.
pub fn calculate_slide_score(
    full_duration: Option<Duration>,
    taken_duration: Duration,
    full_points_awarded: u64,
) -> (score: u64)
    ensures
        score == slide_score(
            match full_duration {
                Some(full) => Some(nanos(full)),
                None => None,
            },
            nanos(taken_duration),
            full_points_awarded as nat,
        ),
{
    match full_duration {
        None => full_points_awarded,
        Some(full) => {
            let window: u128 = full.as_nanos() * 2;
            let taken: u128 = taken_duration.as_nanos();
            if window == 0 || taken >= window {
                0
            } else {
                scale(full_points_awarded, window - taken, window).0
            }
        },
    }
}

/// An answer at once earns all points, one at the end of the window half of them, and one twice as
/// late none.
pub proof fn score_at_the_ends_of_the_window(window: nat, points: nat)
    requires
        window > 0,
    ensures
        slide_score(Some(window), 0, points) == points,
        slide_score(Some(window), window, points) == points / 2,
        slide_score(Some(window), 2 * window, points) == 0,
{
    let w = window as int;
    let p = points as int;
    assert((p * (2 * w - 0)) / (2 * w) == p) by {
        vstd::arithmetic::div_mod::lemma_div_multiples_vanish(p, 2 * w);
        vstd::arithmetic::mul::lemma_mul_is_commutative(p, 2 * w);
    }
    assert(p * (2 * w - w) == p * w);
    assert((p * w) / (2 * w) == p / 2) by {
        vstd::arithmetic::div_mod::lemma_div_denominator(p * w, w, 2);
        vstd::arithmetic::div_mod::lemma_div_multiples_vanish(p, w);
        vstd::arithmetic::mul::lemma_mul_is_commutative(p, w);
        vstd::arithmetic::mul::lemma_mul_is_commutative(w, 2);
    }
}

/// A later answer never earns more, and none earns more than all points.
pub proof fn score_falls_with_time(full: Option<nat>, sooner: nat, later: nat, points: nat)
    requires
        sooner <= later,
    ensures
        slide_score(full, later, points) <= slide_score(full, sooner, points) <= points,
{
    if let Some(window) = full {
        if window > 0 && sooner < 2 * window {
            let d = 2 * window as int;
            let p = points as int;
            assert(p * (d - sooner) <= p * d) by (nonlinear_arith)
                requires
                    p >= 0,
                    sooner >= 0,
            ;
            vstd::arithmetic::div_mod::lemma_div_multiples_vanish(p, d);
            vstd::arithmetic::mul::lemma_mul_is_commutative(p, d);
            vstd::arithmetic::div_mod::lemma_div_is_ordered(p * (d - sooner), p * d, d);
            assert(0 <= p * (d - sooner)) by (nonlinear_arith)
                requires
                    p >= 0,
                    sooner <= d,
            ;
            vstd::arithmetic::div_mod::lemma_div_pos_is_pos(p * (d - sooner), d);
            if later < 2 * window {
                assert(0 <= p * (d - later) <= p * (d - sooner)) by (nonlinear_arith)
                    requires
                        p >= 0,
                        sooner <= later <= d,
                ;
                vstd::arithmetic::div_mod::lemma_div_is_ordered(p * (d - later), p * (d - sooner), d);
                vstd::arithmetic::div_mod::lemma_div_pos_is_pos(p * (d - later), d);
            }
        }
    }
}

/// An answer within the window earns half of the points at least and all of them at most.
pub proof fn answers_in_time_earn_half(window: nat, taken: nat, points: nat)
    requires
        window > 0,
        taken <= window,
    ensures
        points / 2 <= slide_score(Some(window), taken, points) <= points,
{
    score_at_the_ends_of_the_window(window, points);
    score_falls_with_time(Some(window), taken, window, points);
}

/// Answers that come twice as late as the window lasts, or later, earn nothing.
pub proof fn late_answers_earn_nothing(window: nat, taken: nat, points: nat)
    requires
        taken >= 2 * window,
    ensures
        slide_score(Some(window), taken, points) == 0,
{
}

/// Whether `count` has at most five significant bits: every count below 32, every second one up to
/// 64, every fourth one up to 128, and so on.
pub open spec fn few_significant_bits(count: nat) -> bool {
    exists|head: nat, zeros: nat| head < 32 && #[trigger] (head * pow2(zeros)) == count
}

proof fn lemma_few_significant_bits(count: u64)
    ensures
        few_significant_bits(count as nat) <==> vstd::std_specs::bits::u64_leading_zeros(count)
            + vstd::std_specs::bits::u64_trailing_zeros(count) >= 59,
{
    let lead = vstd::std_specs::bits::u64_leading_zeros(count) as u64;
    let trail = vstd::std_specs::bits::u64_trailing_zeros(count) as u64;
    axiom_u64_leading_zeros(count);
    axiom_u64_trailing_zeros(count);
    if count == 0 {
        assert(0 * pow2(0) == 0nat);
    } else {
        if lead + trail >= 59 {
            let head = count >> trail;
            assert(head < 32) by (bit_vector)
                requires
                    count >> ((64 - lead) as u64) == 0,
                    lead + trail >= 59,
                    lead < 64,
                    trail < 64,
                    head == count >> trail,
            ;
            assert(head << trail == count) by (bit_vector)
                requires
                    count << ((64 - trail) as u64) == 0,
                    trail < 64,
                    head == count >> trail,
            ;
            lemma_u64_shr_is_div(count, trail);
            lemma_pow2_pos(trail as nat);
            vstd::arithmetic::div_mod::lemma_fundamental_div_mod(count as int, pow2(trail as nat) as int);
            vstd::arithmetic::mul::lemma_mul_is_commutative(head as int, pow2(trail as nat) as int);
            vstd::arithmetic::div_mod::lemma_mod_pos_bound(count as int, pow2(trail as nat) as int);
            lemma_u64_shl_is_mul(head, trail);
            assert(head as nat * pow2(trail as nat) == count as nat);
        }
        if few_significant_bits(count as nat) {
            let (head, zeros) = choose|head: nat, zeros: nat|
                head < 32 && #[trigger] (head * pow2(zeros)) == count as nat;
            assert(head > 0) by {
                if head == 0 {
                    assert(head * pow2(zeros) == 0) by (nonlinear_arith)
                        requires
                            head == 0,
                    ;
                }
            }
            assert(zeros < 64) by {
                if zeros >= 64 {
                    lemma2_to64_rest();
                    if zeros > 64 {
                        lemma_pow2_strictly_increases(64, zeros);
                    }
                    assert(head * pow2(zeros) >= pow2(zeros)) by (nonlinear_arith)
                        requires
                            head > 0,
                    ;
                }
            }
            let head = head as u64;
            let zeros = zeros as u64;
            lemma_u64_shl_is_mul(head, zeros);
            lemma_pow2_pos(zeros as nat);
            vstd::arithmetic::div_mod::lemma_div_multiples_vanish(head as int, pow2(zeros as nat) as int);
            vstd::arithmetic::mul::lemma_mul_is_commutative(head as int, pow2(zeros as nat) as int);
            assert(count as int / pow2(zeros as nat) as int == head);
            lemma_u64_shr_is_div(count, zeros);
            assert(lead + trail >= 59) by (bit_vector)
                requires
                    count == head << zeros,
                    count >> zeros == head,
                    head < 32,
                    zeros < 64,
                    (count >> trail) & 1u64 == 1u64,
                    trail < 64,
                    (count >> ((63 - lead) as u64)) & 1u64 != 0u64,
                    lead < 64,
            ;
        }
    }
}

/// Every count below 32 is announced and no odd one from there on; twice a count is announced exactly
/// where the count is.
pub proof fn counts_announced(count: nat)
    ensures
        count < 32 ==> few_significant_bits(count),
        count >= 32 && count % 2 == 1 ==> !few_significant_bits(count),
        few_significant_bits(2 * count) <==> few_significant_bits(count),
{
    vstd::arithmetic::power2::lemma2_to64();
    if count < 32 {
        assert(count * pow2(0) == count);
    }
    if count >= 32 && count % 2 == 1 && few_significant_bits(count) {
        let (head, zeros) = choose|head: nat, zeros: nat| head < 32 && #[trigger] (head * pow2(zeros)) == count;
        if zeros == 0 {
            assert(head * pow2(0) == head);
        } else {
            vstd::arithmetic::power2::lemma_pow2_unfold(zeros);
            let half = (zeros - 1) as nat;
            assert(head * (2 * pow2(half)) == 2 * (head * pow2(half))) by (nonlinear_arith);
        }
    }
    if few_significant_bits(2 * count) {
        let (head, zeros) = choose|head: nat, zeros: nat|
            head < 32 && #[trigger] (head * pow2(zeros)) == 2 * count;
        if zeros == 0 {
            assert(head * pow2(0) == head);
            assert(count * pow2(0) == count);
        } else {
            vstd::arithmetic::power2::lemma_pow2_unfold(zeros);
            let half = (zeros - 1) as nat;
            assert(head * (2 * pow2(half)) == 2 * (head * pow2(half))) by (nonlinear_arith);
            assert(head * pow2(half) == count);
        }
    }
    if few_significant_bits(count) {
        let (head, zeros) = choose|head: nat, zeros: nat| head < 32 && #[trigger] (head * pow2(zeros)) == count;
        vstd::arithmetic::power2::lemma_pow2_unfold(zeros + 1);
        assert(head * (2 * pow2(zeros)) == 2 * (head * pow2(zeros))) by (nonlinear_arith);
        assert(head * pow2(zeros + 1) == 2 * count);
    }
}

/// From 32 on, counts are announced in steps: between one power of two and the next, every sixteenth
/// part of it.
pub proof fn counts_are_announced_in_steps(count: nat, band: nat)
    requires
        band >= 5,
        pow2(band) <= count < pow2(band + 1),
    ensures
        few_significant_bits(count) <==> count % pow2((band - 4) as nat) == 0,
{
    let zeros = (band - 4) as nat;
    let step = pow2(zeros);
    lemma_pow2_pos(zeros);
    vstd::arithmetic::power2::lemma2_to64();
    vstd::arithmetic::power2::lemma_pow2_adds(zeros, 4);
    vstd::arithmetic::power2::lemma_pow2_adds(zeros, 5);
    assert(pow2(band) == step * 16);
    assert(pow2(band + 1) == step * 32);
    if count % step == 0 {
        let head = count / step;
        vstd::arithmetic::div_mod::lemma_fundamental_div_mod(count as int, step as int);
        vstd::arithmetic::mul::lemma_mul_is_commutative(head as int, step as int);
        assert(head < 32) by (nonlinear_arith)
            requires
                count == step * head,
                count < step * 32,
                step > 0,
        ;
        assert(head * pow2(zeros) == count);
    }
    if few_significant_bits(count) {
        let (head, more) = choose|head: nat, more: nat| head < 32 && #[trigger] (head * pow2(more)) == count;
        if more < zeros {
            lemma_pow2_strictly_increases(more, zeros);
            vstd::arithmetic::power2::lemma_pow2_unfold(zeros);
            let half = (zeros - 1) as nat;
            if more < half {
                lemma_pow2_strictly_increases(more, half);
            }
            assert(pow2(more) <= pow2(half));
            assert(head * pow2(more) < 32 * pow2(half)) by (nonlinear_arith)
                requires
                    head < 32,
                    pow2(more) <= pow2(half),
                    pow2(half) > 0,
            ;
        } else {
            let rest = (more - zeros) as nat;
            vstd::arithmetic::power2::lemma_pow2_adds(zeros, rest);
            assert(count == (head * pow2(rest)) * step) by (nonlinear_arith)
                requires
                    count == head * pow2(more),
                    pow2(more) == step * pow2(rest),
            ;
            vstd::arithmetic::div_mod::lemma_mod_multiples_basic((head * pow2(rest)) as int, step as int);
        }
    }
}

/// Whether the host hears of the number of answers when it reaches `count`.
pub fn should_announce_answered_count(count: usize) -> (announced: bool)
    ensures
        announced <==> few_significant_bits(count as nat),
{
    let count: u64 = count as u64;
    proof {
        lemma_few_significant_bits(count);
    }
    count.leading_zeros() + count.trailing_zeros() >= 59
}

/// Where a slide is on its way.
#[derive(Copy, Clone, Debug, PartialEq, Eq, Structural)]
pub enum SlideState {
    /// Announced at most.
    Unstarted,
    /// The question is shown.
    Question,
    /// Answers are asked for.
    Answers,
    /// The results are shown.
    AnswersResults,
}

impl Default for SlideState {
    fn default() -> (state: Self)
        ensures
            state == SlideState::Unstarted,
    {
        SlideState::Unstarted
    }
}

impl SlideState {
    /// What comes next.
    pub open spec fn spec_next(self) -> Option<SlideState> {
        match self {
            SlideState::Unstarted => Some(SlideState::Question),
            SlideState::Question => Some(SlideState::Answers),
            SlideState::Answers => Some(SlideState::AnswersResults),
            SlideState::AnswersResults => None,
        }
    }

    /// What comes next.
    pub fn next(self) -> (next: Option<SlideState>)
        ensures
            next == self.spec_next(),
    {
        match self {
            SlideState::Unstarted => Some(SlideState::Question),
            SlideState::Question => Some(SlideState::Answers),
            SlideState::Answers => Some(SlideState::AnswersResults),
            SlideState::AnswersResults => None,
        }
    }

    /// How many steps are left.
    pub open spec fn steps_left(self) -> nat {
        match self {
            SlideState::Unstarted => 3,
            SlideState::Question => 2,
            SlideState::Answers => 1,
            SlideState::AnswersResults => 0,
        }
    }
}

/// An alarm that moves a slide on.
#[derive(Copy, Clone, Debug, PartialEq, Eq, Structural)]
pub struct ProceedFromSlideIntoSlide {
    /// The number of the slide.
    pub index: usize,
    /// Where it moves.
    pub to: SlideState,
}

/// Where a slide is on its way, and since when answers are timed.
#[derive(Copy, Clone, Debug, PartialEq, Eq, Structural)]
pub struct SlideCore {
    /// Where the slide is on its way.
    pub state: SlideState,
    /// Since when answers are timed.
    pub answer_start: Option<Timestamp>,
}

impl Default for SlideCore {
    fn default() -> (core: Self)
        ensures
            core == (SlideCore { state: SlideState::Unstarted, answer_start: None }),
    {
        SlideCore { state: SlideState::Unstarted, answer_start: None }
    }
}

/// Something that goes from state to state.
pub trait SlideStateManager {
    /// Where it is.
    spec fn spec_state(&self) -> SlideState;

    /// Where it is.
    fn state(&self) -> (state: SlideState)
        ensures
            state == self.spec_state(),
    ;

    /// Moves on, if it is where it is thought to be, and tells whether it did.
    fn change_state(&mut self, before: SlideState, after: SlideState) -> (moved: bool)
        ensures
            moved <==> old(self).spec_state() == before,
            final(self).spec_state() == if moved {
                after
            } else {
                old(self).spec_state()
            },
    ;
}

impl SlideStateManager for SlideCore {
    open spec fn spec_state(&self) -> SlideState {
        self.state
    }

    fn state(&self) -> (state: SlideState) {
        self.state
    }

    fn change_state(&mut self, before: SlideState, after: SlideState) -> (moved: bool)
        ensures
            final(self).answer_start == old(self).answer_start,
    {
        if self.state == before {
            self.state = after;
            true
        } else {
            false
        }
    }
}

/// Something that times answers.
pub trait SlideTimer {
    /// Since when answers are timed.
    spec fn spec_answer_start(&self) -> Option<Timestamp>;

    /// Since when answers are timed.
    fn answer_start(&self) -> (start: Option<Timestamp>)
        ensures
            start == self.spec_answer_start(),
    ;

    /// Sets since when answers are timed.
    fn set_answer_start(&mut self, time: Option<Timestamp>)
        ensures
            final(self).spec_answer_start() == time,
    ;

    /// Times answers from now on.
    fn start_timer(&mut self, now: Timestamp)
        ensures
            final(self).spec_answer_start() == Some(now),
    {
        self.set_answer_start(Some(now));
    }

    /// Since when answers are timed, or now.
    fn timer(&self, now: Timestamp) -> (start: Timestamp)
        ensures
            start == started(self.spec_answer_start(), now),
    {
        match self.answer_start() {
            Some(start) => start,
            None => now,
        }
    }

    /// For how long answers have been timed.
    fn elapsed(&self, now: Timestamp) -> (span: Duration)
        ensures
            nanos(span) == now.nanos_since(started(self.spec_answer_start(), now)),
    {
        now.duration_since(self.timer(now))
    }
}

/// The start, or now.
pub open spec fn started(start: Option<Timestamp>, now: Timestamp) -> Timestamp {
    match start {
        Some(start) => start,
        None => now,
    }
}

impl SlideTimer for SlideCore {
    open spec fn spec_answer_start(&self) -> Option<Timestamp> {
        self.answer_start
    }

    fn answer_start(&self) -> (start: Option<Timestamp>) {
        self.answer_start
    }

    fn set_answer_start(&mut self, time: Option<Timestamp>)
        ensures
            final(self).state == old(self).state,
    {
        self.answer_start = time;
    }

    fn start_timer(&mut self, now: Timestamp)
        ensures
            final(self).state == old(self).state,
    {
        self.answer_start = Some(now);
    }
}

impl SlideCore {
    /// Whether `left` is what is left of a time: nothing of none, and never less than nothing.
    pub open spec fn is_left(self, time: Option<Duration>, now: Timestamp, left: Option<Duration>) -> bool {
        match (time, left) {
            (Some(time), Some(left)) => {
                let taken = now.nanos_since(started(self.answer_start, now));
                nanos(left) == if nanos(time) >= taken {
                    (nanos(time) - taken) as nat
                } else {
                    0
                }
            },
            (None, None) => true,
            _ => false,
        }
    }

    /// What is left of a time.
    pub fn time_left(&self, time: Option<Duration>, now: Timestamp) -> (left: Option<Duration>)
        ensures
            self.is_left(time, now, left),
    {
        match time {
            Some(time) => Some(time.saturating_sub(self.elapsed(now))),
            None => None,
        }
    }
}

/// Whether a time is no time at all.
pub fn is_zero(time: &Duration) -> (zero: bool)
    ensures
        zero <==> nanos(*time) == 0,
{
    time.as_nanos() == 0
}

/// The answers to a question, each with the time it came, and how many of those who answered are
/// still there.
#[derive(Debug)]
pub struct AnswerBook<A> {
    /// The last answer of everyone.
    pub user_answers: IdMap<(A, Timestamp)>,
    /// How many of those who answered are still there.
    pub live_answered_count: usize,
}

impl<A> AnswerBook<A> {
    /// No answers.
    pub fn new() -> (book: Self)
        ensures
            book.answers() == Map::<Id, (A, Timestamp)>::empty(),
            book.live_answered_count == 0,
    {
        AnswerBook { user_answers: IdMap::new(), live_answered_count: 0 }
    }

    /// The last answer of everyone.
    pub open spec fn answers(&self) -> Map<Id, (A, Timestamp)> {
        self.user_answers@
    }

    /// Those who answered.
    pub fn ids_of_who_answered(&self) -> (ids: Vec<Id>)
        ensures
            ids@.no_duplicates(),
            ids@.to_set() == self.answers().dom(),
    {
        self.user_answers.keys()
    }

    /// Notes an answer, in place of an earlier one.
    pub fn record_answer(&mut self, id: Id, answer: A, now: Timestamp)
        requires
            old(self).live_answered_count < usize::MAX,
        ensures
            final(self).answers() == old(self).answers().insert(id, (answer, now)),
            final(self).live_answered_count == if old(self).answers().contains_key(id) {
                old(self).live_answered_count as int
            } else {
                old(self).live_answered_count + 1
            },
    {
        let earlier = self.user_answers.insert(id, (answer, now));
        if earlier.is_none() {
            self.live_answered_count = self.live_answered_count + 1;
        }
    }

    /// Takes a participant who leaves out of the count, if there is an answer.
    pub fn mark_watcher_left(&mut self, id: Id)
        ensures
            final(self).user_answers == old(self).user_answers,
            final(self).live_answered_count == if old(self).answers().contains_key(id)
                && old(self).live_answered_count > 0 {
                old(self).live_answered_count - 1
            } else {
                old(self).live_answered_count as int
            },
    {
        if self.user_answers.contains_key(id) {
            self.live_answered_count = self.live_answered_count.saturating_sub(1);
        }
    }

    /// Puts a participant who returns back into the count, if there is an answer.
    pub fn mark_watcher_returned(&mut self, id: Id)
        requires
            old(self).live_answered_count < usize::MAX,
        ensures
            final(self).user_answers == old(self).user_answers,
            final(self).live_answered_count == if old(self).answers().contains_key(id) {
                old(self).live_answered_count + 1
            } else {
                old(self).live_answered_count as int
            },
    {
        if self.user_answers.contains_key(id) {
            self.live_answered_count = self.live_answered_count + 1;
        }
    }
}

/// How many of those who answered are not away.
pub open spec fn present_answers<A>(answers: Map<Id, (A, Timestamp)>, away: Set<Id>) -> nat {
    answers.dom().difference(away).len()
}

/// The count stays that of those who answered and are not away: as an answer comes from someone
/// present, as someone present leaves, and as someone away returns.
pub proof fn live_count_counts_the_present<A>(answers: Map<Id, (A, Timestamp)>, away: Set<Id>, id: Id, entry: (A, Timestamp))
    requires
        answers.dom().finite(),
    ensures
        !away.contains(id) ==> present_answers(answers.insert(id, entry), away) == present_answers(answers, away)
            + if answers.contains_key(id) { 0int } else { 1int },
        !away.contains(id) && answers.contains_key(id) ==> present_answers(answers, away.insert(id)) + 1
            == present_answers(answers, away),
        !away.contains(id) && !answers.contains_key(id) ==> present_answers(answers, away.insert(id))
            == present_answers(answers, away),
        away.contains(id) && answers.contains_key(id) ==> present_answers(answers, away.remove(id))
            == present_answers(answers, away) + 1,
        away.contains(id) && !answers.contains_key(id) ==> present_answers(answers, away.remove(id))
            == present_answers(answers, away),
{
    let there = answers.dom().difference(away);
    if !away.contains(id) {
        assert(answers.insert(id, entry).dom().difference(away) =~= there.insert(id));
        assert(answers.dom().difference(away.insert(id)) =~= there.remove(id));
    } else {
        if answers.contains_key(id) {
            assert(answers.dom().difference(away.remove(id)) =~= there.insert(id));
        } else {
            assert(answers.dom().difference(away.remove(id)) =~= there);
        }
    }
}

/// Someone who leaves and returns is counted as before.
pub proof fn returning_undoes_leaving<A>(before: AnswerBook<A>, left: AnswerBook<A>, back: AnswerBook<A>, id: Id)
    requires
        before.answers().contains_key(id) ==> before.live_answered_count > 0,
        left.user_answers == before.user_answers,
        left.live_answered_count == if before.answers().contains_key(id) && before.live_answered_count > 0 {
            before.live_answered_count - 1
        } else {
            before.live_answered_count as int
        },
        back.user_answers == left.user_answers,
        back.live_answered_count == if left.answers().contains_key(id) {
            left.live_answered_count + 1
        } else {
            left.live_answered_count as int
        },
    ensures
        back == before,
{
}

/// Whether everyone present has answered, and there is someone.
pub open spec fn everyone_answered(live_answered: nat, live_players: nat) -> bool {
    live_players > 0 && live_answered >= live_players
}

/// Whether everyone present has answered, and there is someone.
pub fn all_players_answered<A>(book: &AnswerBook<A>, watchers: &Watchers) -> (all: bool)
    requires
        watchers.wf(),
    ensures
        all == everyone_answered(book.live_answered_count as nat, watchers.present(ValueKind::Player).len()),
        all <==> watchers.present(ValueKind::Player).len() > 0 && book.live_answered_count
            >= watchers.present(ValueKind::Player).len(),
{
    let live_players: usize = watchers.specific_count(ValueKind::Player);
    live_players > 0 && book.live_answered_count >= live_players
}

/// How many of those present have answered.
pub fn get_answered_count<A>(book: &AnswerBook<A>) -> (count: usize)
    ensures
        count == book.live_answered_count,
{
    book.live_answered_count
}

/// What follows an answer.
#[derive(Copy, Clone, Debug, PartialEq, Eq, Structural)]
pub enum PostAnswer {
    /// Everyone has answered: the results are due.
    Results,
    /// The host hears how many have answered.
    Count(usize),
    /// Nothing.
    Nothing,
}

/// What follows an answer, with so many answers and so many players.
pub open spec fn post_answer(live_answered: usize, live_players: nat) -> PostAnswer {
    if everyone_answered(live_answered as nat, live_players) {
        PostAnswer::Results
    } else if few_significant_bits(live_answered as nat) {
        PostAnswer::Count(live_answered)
    } else {
        PostAnswer::Nothing
    }
}

/// What follows an answer.
pub fn after_answer<A>(book: &AnswerBook<A>, watchers: &Watchers) -> (next: PostAnswer)
    requires
        watchers.wf(),
    ensures
        next == post_answer(book.live_answered_count, watchers.present(ValueKind::Player).len()),
{
    if all_players_answered(book, watchers) {
        PostAnswer::Results
    } else {
        let count: usize = get_answered_count(book);
        if should_announce_answered_count(count) {
            PostAnswer::Count(count)
        } else {
            PostAnswer::Nothing
        }
    }
}

/// A part of the points.
#[derive(Copy, Clone, Debug, PartialEq, Eq, Structural)]
pub struct Multiplier {
    /// How many parts.
    pub numerator: usize,
    /// Of how many.
    pub denominator: usize,
}

impl Multiplier {
    /// Not more than the whole.
    pub open spec fn wf(self) -> bool {
        0 < self.denominator && self.numerator <= self.denominator
    }

    /// All points or none.
    pub open spec fn spec_whole(all: bool) -> Multiplier {
        Multiplier { numerator: if all { 1 } else { 0 }, denominator: 1 }
    }

    /// All points or none.
    pub fn whole(all: bool) -> (multiplier: Multiplier)
        ensures
            multiplier == Multiplier::spec_whole(all),
            multiplier.wf(),
    {
        Multiplier { numerator: if all { 1 } else { 0 }, denominator: 1 }
    }

    /// That part of the points, rounded down.
    pub open spec fn of(self, points: nat) -> nat {
        ((points * self.numerator) / (self.denominator as int)) as nat
    }

    /// That part of the points, rounded down.
    pub fn apply(self, points: u64) -> (part: u64)
        requires
            self.wf(),
        ensures
            part == self.of(points as nat),
            part <= points,
    {
        scale(points, self.numerator as u128, self.denominator as u128).0
    }
}

/// A slide that takes answers of type `A`.
pub trait AnswerHandler<A>: Sized {
    /// What always holds of it.
    spec fn wf(&self) -> bool;

    /// The answers.
    spec fn book(&self) -> AnswerBook<A>;

    /// Where it is on its way.
    spec fn progress(&self) -> SlideCore;

    /// Whether an answer is correct.
    spec fn is_correct(&self, answer: A) -> bool;

    /// Whether an answer may be among those taken.
    spec fn recordable(&self, answer: A) -> bool;

    /// The part of the points that an answer earns.
    spec fn multiplier(&self, answer: A) -> Multiplier;

    /// The most points that an answer earns.
    spec fn full_points(&self) -> u64;

    /// The time to answer.
    spec fn window(&self) -> Option<Duration>;

    /// The answers taken may be among those taken, and earn a part of the points.
    proof fn recorded_answers(&self, id: Id)
        requires
            self.wf(),
            self.book().answers().contains_key(id),
        ensures
            self.recordable(self.book().answers()[id].0),
            self.multiplier(self.book().answers()[id].0).wf(),
    ;

    /// The answers.
    fn answer_book(&self) -> (book: &AnswerBook<A>)
        ensures
            *book == self.book(),
    ;

    /// Where it is on its way.
    fn slide_core(&self) -> (core: SlideCore)
        ensures
            core == self.progress(),
    ;

    /// Whether an answer is correct.
    fn is_correct_answer(&self, answer: &A) -> (correct: bool)
        requires
            self.wf(),
            self.recordable(*answer),
        ensures
            correct == self.is_correct(*answer),
    ;

    /// The part of the points that an answer earns.
    fn score_multiplier(&self, answer: &A) -> (multiplier: Multiplier)
        requires
            self.wf(),
            self.recordable(*answer),
        ensures
            multiplier == self.multiplier(*answer),
            multiplier.wf(),
    ;

    /// The most points that an answer earns.
    fn max_points(&self) -> (points: u64)
        ensures
            points == self.full_points(),
    ;

    /// The time to answer.
    fn time_limit(&self) -> (limit: Option<Duration>)
        ensures
            limit == self.window(),
    ;
}

/// Those whose answers are correct.
pub open spec fn correct_answers<A, S: AnswerHandler<A>>(slide: S) -> Set<Id> {
    slide.book().answers().dom().filter(|id: Id| slide.is_correct(slide.book().answers()[id].0))
}

/// How many answers are correct.
pub fn correct_count<A, S: AnswerHandler<A>>(slide: &S) -> (count: usize)
    requires
        slide.wf(),
    ensures
        count == correct_answers(*slide).len(),
        count <= slide.book().answers().dom().len(),
{
    let book = slide.answer_book();
    let ids = book.ids_of_who_answered();
    let ghost pred = |id: Id| slide.is_correct(book.answers()[id].0);
    let mut count: usize = 0;
    let mut i: usize = 0;
    while i < ids.len()
        invariant
            slide.wf(),
            i <= ids.len(),
            count <= i,
            *book == slide.book(),
            ids@.to_set() == book.answers().dom(),
            pred == (|id: Id| slide.is_correct(book.answers()[id].0)),
            count == ids@.take(i as int).filter(pred).len(),
        decreases ids.len() - i,
    {
        proof {
            lemma_filter_take(ids@, pred, i as int);
            assert(ids@.to_set().contains(ids@[i as int]));
        }
        match book.user_answers.get(ids[i]) {
            Some(entry) => {
                proof {
                    slide.recorded_answers(ids@[i as int]);
                }
                if slide.is_correct_answer(&entry.0) {
                    count = count + 1;
                }
            },
            None => {},
        }
        i = i + 1;
    }
    proof {
        assert(ids@.take(i as int) =~= ids@);
        lemma_count_keys(ids@, book.answers().dom(), pred);
        assert(correct_answers(*slide) =~= book.answers().dom().filter(pred));
    }
    count
}

/// Who gets the points of a player: the player's team, or the player where there is none.
pub open spec fn scorer(stage: Stage, player: Id) -> Id {
    match stage.team_manager {
        Some(team_manager) => match team_manager.team_of(player) {
            Some(team) => team,
            None => player,
        },
        None => player,
    }
}

/// The points that the answer of a player is worth.
pub open spec fn answer_points<A, S: AnswerHandler<A>>(slide: S, now: Timestamp, player: Id) -> nat {
    let (answer, instant) = slide.book().answers()[player];
    slide.multiplier(answer).of(
        slide_score(
            match slide.window() {
                Some(window) => Some(nanos(window)),
                None => None,
            },
            instant.nanos_since(started(slide.progress().answer_start, now)),
            slide.full_points() as nat,
        ),
    )
}

/// Whether the answer of `player` is the first of those that count for `group`.
pub open spec fn answered_first<A, S: AnswerHandler<A>>(slide: S, stage: Stage, group: Id, player: Id) -> bool {
    let answers = slide.book().answers();
    &&& answers.contains_key(player)
    &&& scorer(stage, player) == group
    &&& forall|other: Id|
        answers.contains_key(other) && #[trigger] scorer(stage, other) == group
            ==> answers[player].1.nanos_since_epoch <= answers[other].1.nanos_since_epoch
}

/// Everyone who gets an entry whether there was an answer or not: the teams, or the players that can
/// be reached.
pub open spec fn expected(stage: Stage) -> Seq<Id> {
    match stage.team_manager {
        Some(team_manager) => match team_manager.formed() {
            None => Seq::empty(),
            Some(teams) => teams.map_values(|team: (Id, String)| team.0),
        },
        None => stage.watchers.reachable(ValueKind::Player, stage.tunnels@),
    }
}

/// Whether anyone answered for `group`.
pub open spec fn has_answer<A, S: AnswerHandler<A>>(slide: S, stage: Stage, group: Id) -> bool {
    exists|player: Id| slide.book().answers().contains_key(player) && #[trigger] scorer(stage, player) == group
}

/// Whether `scores` are the points of a round: one entry for everyone who is expected or answered,
/// with the points of the first answer, and none without one.
pub open spec fn is_round<A, S: AnswerHandler<A>>(slide: S, stage: Stage, scores: Seq<(Id, u64)>) -> bool {
    &&& forall|i: int, j: int| 0 <= i < j < scores.len() ==> (#[trigger] scores[i]).0 != (#[trigger] scores[j]).0
    &&& forall|i: int|
        0 <= i < scores.len() ==> if has_answer(slide, stage, (#[trigger] scores[i]).0) {
            exists|player: Id| #[trigger]
                answered_first(slide, stage, scores[i].0, player) && scores[i].1 == answer_points(
                    slide,
                    stage.now,
                    player,
                )
        } else {
            scores[i].1 == 0 && expected(stage).contains(scores[i].0)
        }
    &&& forall|group: Id| #[trigger]
        has_answer(slide, stage, group) || expected(stage).contains(group) ==> exists|i: int|
            0 <= i < scores.len() && (#[trigger] scores[i]).0 == group
}

fn scorer_of(stage: &Stage, player: Id) -> (group: Id)
    ensures
        group == scorer(*stage, player),
{
    match stage.team_manager {
        Some(team_manager) => match team_manager.get_team(player) {
            Some(team) => team,
            None => player,
        },
        None => player,
    }
}

/// Whether `earliest` holds the points and the time of the first answer of each group, as far as
/// `seen` go.
spec fn holds_first<A, S: AnswerHandler<A>>(
    slide: S,
    stage: Stage,
    seen: Seq<Id>,
    earliest: Map<Id, (u64, Timestamp)>,
) -> bool {
    &&& forall|group: Id| #[trigger]
        earliest.contains_key(group) ==> exists|player: Id| {
            &&& #[trigger] seen.contains(player)
            &&& scorer(stage, player) == group
            &&& earliest[group].0 == answer_points(slide, stage.now, player)
            &&& earliest[group].1 == slide.book().answers()[player].1
        }
    &&& forall|player: Id| #[trigger]
        seen.contains(player) ==> {
            &&& earliest.contains_key(scorer(stage, player))
            &&& earliest[scorer(stage, player)].1.nanos_since_epoch
                <= slide.book().answers()[player].1.nanos_since_epoch
        }
}

fn first_answers<A, S: AnswerHandler<A>>(slide: &S, stage: &Stage) -> (earliest: IdMap<(u64, Timestamp)>)
    requires
        slide.wf(),
    ensures
        exists|seen: Seq<Id>|
            seen.to_set() == slide.book().answers().dom() && #[trigger] holds_first(*slide, *stage, seen, earliest@),
{
    let start = slide.slide_core().timer(stage.now);
    let book = slide.answer_book();
    let ids = book.ids_of_who_answered();
    let limit = slide.time_limit();
    let points: u64 = slide.max_points();
    let mut earliest: IdMap<(u64, Timestamp)> = IdMap::new();
    let mut i: usize = 0;
    while i < ids.len()
        invariant
            slide.wf(),
            i <= ids.len(),
            *book == slide.book(),
            ids@.to_set() == book.answers().dom(),
            start == started(slide.progress().answer_start, stage.now),
            limit == slide.window(),
            points == slide.full_points(),
            holds_first(*slide, *stage, ids@.take(i as int), earliest@),
        decreases ids.len() - i,
    {
        let player = ids[i];
        let ghost seen = ids@.take(i as int);
        let ghost longer = ids@.take(i + 1);
        let ghost before = earliest@;
        assert(ids@.to_set().contains(ids@[i as int]));
        match book.user_answers.get(player) {
            None => {},
            Some(entry) => {
                proof {
                    slide.recorded_answers(player);
                }
                let multiplier = slide.score_multiplier(&entry.0);
                let instant = entry.1;
                let score: u64 = multiplier.apply(
                    calculate_slide_score(limit, instant.duration_since(start), points),
                );
                assert(score == answer_points(*slide, stage.now, player));
                let group = scorer_of(stage, player);
                let first = match earliest.get(group) {
                    Some(existing) => instant.nanos_since_epoch < existing.1.nanos_since_epoch,
                    None => true,
                };
                if first {
                    earliest.insert(group, (score, instant));
                }
                proof {
                    assert(longer =~= seen.push(player));
                    assert(longer[i as int] == player);
                    assert forall|other: Id| #[trigger] longer.contains(other) <==> seen.contains(other) || other
                        == player by {
                        if seen.contains(other) {
                            let k = choose|k: int| 0 <= k < seen.len() && seen[k] == other;
                            assert(longer[k] == other);
                        }
                        if longer.contains(other) && other != player {
                            let k = choose|k: int| 0 <= k < longer.len() && longer[k] == other;
                            assert(seen[k] == other);
                        }
                    }
                    assert forall|g: Id| #[trigger] earliest@.contains_key(g) implies exists|p: Id| {
                        &&& #[trigger] longer.contains(p)
                        &&& scorer(*stage, p) == g
                        &&& earliest@[g].0 == answer_points(*slide, stage.now, p)
                        &&& earliest@[g].1 == slide.book().answers()[p].1
                    } by {
                        if g == group && first {
                            assert(longer.contains(player));
                        } else {
                            assert(before.contains_key(g));
                            let p = choose|p: Id| {
                                &&& #[trigger] seen.contains(p)
                                &&& scorer(*stage, p) == g
                                &&& before[g].0 == answer_points(*slide, stage.now, p)
                                &&& before[g].1 == slide.book().answers()[p].1
                            };
                            assert(longer.contains(p));
                        }
                    }
                    assert forall|p: Id| #[trigger] longer.contains(p) implies {
                        &&& earliest@.contains_key(scorer(*stage, p))
                        &&& earliest@[scorer(*stage, p)].1.nanos_since_epoch
                            <= slide.book().answers()[p].1.nanos_since_epoch
                    } by {
                        if p != player {
                            assert(seen.contains(p));
                        }
                    }
                }
            },
        }
        i = i + 1;
    }
    assert(ids@.take(i as int) =~= ids@);
    assert(holds_first(*slide, *stage, ids@, earliest@));
    earliest
}

/// The points of the round.
pub fn round_scores<A, S: AnswerHandler<A>>(slide: &S, stage: &Stage) -> (scores: Vec<(Id, u64)>)
    requires
        slide.wf(),
        stage.wf(),
    ensures
        is_round(*slide, *stage, scores@),
{
    let earliest = first_answers(slide, stage);
    let ghost seen = choose|seen: Seq<Id>|
        seen.to_set() == slide.book().answers().dom() && #[trigger] holds_first(*slide, *stage, seen, earliest@);
    proof {
        assert forall|player: Id| slide.book().answers().contains_key(player) <==> #[trigger] seen.contains(player) by {
            assert(seen.to_set().contains(player) <==> slide.book().answers().dom().contains(player));
        }
        assert forall|group: Id| #[trigger] has_answer(*slide, *stage, group) <==> earliest@.contains_key(group) by {
            if has_answer(*slide, *stage, group) {
                let player = choose|player: Id|
                    slide.book().answers().contains_key(player) && #[trigger] scorer(*stage, player) == group;
                assert(seen.contains(player));
            }
            if earliest@.contains_key(group) {
                let player = choose|player: Id| {
                    &&& #[trigger] seen.contains(player)
                    &&& scorer(*stage, player) == group
                    &&& earliest@[group].0 == answer_points(*slide, stage.now, player)
                    &&& earliest@[group].1 == slide.book().answers()[player].1
                };
                assert(scorer(*stage, player) == group);
            }
        }
    }
    let groups = earliest.keys();
    let mut scores: Vec<(Id, u64)> = Vec::new();
    let mut i: usize = 0;
    while i < groups.len()
        invariant
            i <= groups.len(),
            groups@.to_set() == earliest@.dom(),
            scores.len() == i,
            forall|k: int| 0 <= k < i ==> (#[trigger] scores[k]).0 == groups[k] && scores[k].1 == earliest@[groups[k]].0,
        decreases groups.len() - i,
    {
        assert(groups@.to_set().contains(groups@[i as int]));
        match earliest.get(groups[i]) {
            Some(entry) => {
                scores.push((groups[i], entry.0));
            },
            None => {},
        }
        i = i + 1;
    }
    let ghost answered = scores@;
    let everyone = match stage.team_manager {
        Some(team_manager) => team_manager.all_ids(),
        None => stage.watchers.specific_vec(ValueKind::Player, stage.tunnels),
    };
    proof {
        lemma_expected_distinct(*stage);
        assert forall|k: int| 0 <= k < answered.len() implies has_answer(*slide, *stage, (#[trigger] answered[k]).0) by {
            assert(groups@.to_set().contains(groups@[k]));
        }
        assert forall|k: int, m: int| 0 <= k < m < answered.len() implies (#[trigger] answered[k]).0 != (
        #[trigger] answered[m]).0 by {
            assert(groups@[k] != groups@[m]);
        }
    }
    let mut j: usize = 0;
    while j < everyone.len()
        invariant
            j <= everyone.len(),
            everyone@ == expected(*stage),
            everyone@.no_duplicates(),
            forall|group: Id| #[trigger] has_answer(*slide, *stage, group) <==> earliest@.contains_key(group),
            answered.len() <= scores.len(),
            scores@.take(answered.len() as int) == answered,
            forall|k: int, m: int| 0 <= k < m < scores.len() ==> (#[trigger] scores[k]).0 != (#[trigger] scores[m]).0,
            forall|k: int| 0 <= k < answered.len() ==> has_answer(*slide, *stage, (#[trigger] answered[k]).0),
            forall|k: int|
                answered.len() <= k < scores.len() ==> {
                    &&& (#[trigger] scores[k]).1 == 0
                    &&& !has_answer(*slide, *stage, scores[k].0)
                    &&& everyone@.take(j as int).contains(scores[k].0)
                },
            forall|m: int|
                0 <= m < j ==> has_answer(*slide, *stage, #[trigger] everyone@[m]) || exists|k: int|
                    0 <= k < scores.len() && (#[trigger] scores[k]).0 == everyone@[m],
        decreases everyone.len() - j,
    {
        let id = everyone[j];
        let ghost before = scores@;
        let ghost looked = everyone@.take(j as int);
        if !earliest.contains_key(id) {
            scores.push((id, 0));
        }
        proof {
            let longer = everyone@.take(j + 1);
            assert(longer =~= looked.push(id));
            assert(longer[j as int] == id);
            assert(has_answer(*slide, *stage, id) <==> earliest@.contains_key(id));
            assert(scores@.take(answered.len() as int) =~= answered);
            assert(!looked.contains(id)) by {
                if looked.contains(id) {
                    let k = choose|k: int| 0 <= k < looked.len() && looked[k] == id;
                    assert(everyone@[k] == everyone@[j as int]);
                }
            }
            assert forall|k: int| 0 <= k < before.len() implies earliest@.contains_key(id) || (
            #[trigger] before[k]).0 != id by {
                if k < answered.len() {
                    assert(before.take(answered.len() as int)[k] == answered[k]);
                    assert(has_answer(*slide, *stage, answered[k].0));
                } else {
                    assert(looked.contains(before[k].0));
                }
            }
            assert forall|k: int, m: int| 0 <= k < m < scores.len() implies (#[trigger] scores[k]).0 != (
            #[trigger] scores[m]).0 by {
                assert(scores[k] == before[k]);
                if m < before.len() {
                    assert(scores[m] == before[m]);
                }
            }
            assert forall|k: int| answered.len() <= k < scores.len() implies {
                &&& (#[trigger] scores[k]).1 == 0
                &&& !has_answer(*slide, *stage, scores[k].0)
                &&& longer.contains(scores[k].0)
            } by {
                if k < before.len() {
                    assert(scores[k] == before[k]);
                    let n = choose|n: int| 0 <= n < looked.len() && looked[n] == before[k].0;
                    assert(longer[n] == before[k].0);
                }
            }
            assert forall|m: int| 0 <= m < j + 1 implies has_answer(*slide, *stage, #[trigger] everyone@[m]) || exists|
                k: int,
            | 0 <= k < scores.len() && (#[trigger] scores[k]).0 == everyone@[m] by {
                if m < j {
                    if !has_answer(*slide, *stage, everyone@[m]) {
                        let k = choose|k: int| 0 <= k < before.len() && (#[trigger] before[k]).0 == everyone@[m];
                        assert(scores[k].0 == everyone@[m]);
                    }
                } else if !earliest@.contains_key(id) {
                    assert(scores[before.len() as int].0 == everyone@[m]);
                }
            }
        }
        j = j + 1;
    }
    proof {
        assert(everyone@.take(j as int) =~= everyone@);
        assert forall|k: int| 0 <= k < scores.len() implies if has_answer(*slide, *stage, (#[trigger] scores@[k]).0) {
            exists|player: Id| #[trigger]
                answered_first(*slide, *stage, scores@[k].0, player) && scores@[k].1 == answer_points(
                    *slide,
                    stage.now,
                    player,
                )
        } else {
            scores@[k].1 == 0 && expected(*stage).contains(scores@[k].0)
        } by {
            if k < answered.len() {
                assert(scores@.take(answered.len() as int)[k] == answered[k]);
                let group = answered[k].0;
                assert(has_answer(*slide, *stage, group));
                let player = choose|player: Id| {
                    &&& #[trigger] seen.contains(player)
                    &&& scorer(*stage, player) == group
                    &&& earliest@[group].0 == answer_points(*slide, stage.now, player)
                    &&& earliest@[group].1 == slide.book().answers()[player].1
                };
                assert(slide.book().answers().contains_key(player));
                assert forall|other: Id|
                    slide.book().answers().contains_key(other) && #[trigger] scorer(*stage, other) == group implies slide.book().answers()[player].1.nanos_since_epoch
                    <= slide.book().answers()[other].1.nanos_since_epoch by {
                    assert(seen.contains(other));
                }
                assert(answered_first(*slide, *stage, group, player));
            } else {
                assert(scores[k].1 == 0);
            }
        }
        assert forall|group: Id| #[trigger]
            has_answer(*slide, *stage, group) || expected(*stage).contains(group) implies exists|k: int|
            0 <= k < scores.len() && (#[trigger] scores@[k]).0 == group by {
            if has_answer(*slide, *stage, group) {
                assert(groups@.to_set().contains(group));
                let k = choose|k: int| 0 <= k < groups@.len() && groups@[k] == group;
                assert(scores@.take(answered.len() as int)[k] == answered[k]);
                assert(scores@[k].0 == group);
            } else {
                let m = choose|m: int| 0 <= m < everyone@.len() && everyone@[m] == group;
                assert(everyone@[m] == group);
            }
        }
    }
    scores
}

proof fn lemma_expected_distinct(stage: Stage)
    requires
        stage.wf(),
    ensures
        expected(stage).no_duplicates(),
{
    match stage.team_manager {
        Some(team_manager) => {
            match team_manager.formed() {
                Some(teams) => {
                    assert forall|i: int, j: int|
                        0 <= i < expected(stage).len() && 0 <= j < expected(stage).len() && i != j implies expected(
                        stage,
                    )[i] != expected(stage)[j] by {
                        if i < j {
                            assert(teams[i].0 != teams[j].0);
                        } else {
                            assert(teams[j].0 != teams[i].0);
                        }
                    }
                },
                None => {},
            }
        },
        None => {
            reachable_no_duplicates(*stage.watchers, ValueKind::Player, stage.tunnels@);
        },
    }
}

/// Nobody earns more than all points of a slide.
pub proof fn rounds_are_bounded<A, S: AnswerHandler<A>>(slide: S, stage: Stage, scores: Seq<(Id, u64)>, i: int)
    requires
        slide.wf(),
        is_round(slide, stage, scores),
        0 <= i < scores.len(),
    ensures
        scores[i].1 <= slide.full_points(),
{
    if has_answer(slide, stage, scores[i].0) {
        let player = choose|player: Id| #[trigger]
            answered_first(slide, stage, scores[i].0, player) && scores[i].1 == answer_points(slide, stage.now, player);
        let (answer, instant) = slide.book().answers()[player];
        let full = match slide.window() {
            Some(window) => Some(nanos(window)),
            None => None,
        };
        let taken = instant.nanos_since(started(slide.progress().answer_start, stage.now));
        score_falls_with_time(full, taken, taken, slide.full_points() as nat);
        let base = slide_score(full, taken, slide.full_points() as nat) as int;
        let part = slide.multiplier(answer);
        slide.recorded_answers(player);
        let n = part.numerator as int;
        let d = part.denominator as int;
        assert(base * n <= base * d) by (nonlinear_arith)
            requires
                base >= 0,
                n <= d,
        ;
        vstd::arithmetic::div_mod::lemma_div_is_ordered(base * n, base * d, d);
        vstd::arithmetic::div_mod::lemma_div_multiples_vanish(base, d);
        vstd::arithmetic::mul::lemma_mul_is_commutative(base, d);
    }
}

/// Whether `after` is `before` with the points of a slide.
pub open spec fn scored<A, S: AnswerHandler<A>>(slide: S, stage: Stage, before: Leaderboard, after: Leaderboard) -> bool {
    exists|scores: Seq<(Id, u64)>| {
        &&& #[trigger] is_round(slide, stage, scores)
        &&& after.history() == before.history().push(scores)
        &&& after.totals() == tallied(before.totals(), scores)
        &&& after.entrants() == enlisted(before.entrants(), scores)
        &&& after.prior_standings() == before.standings()
    }
}

/// Adds the points of a slide to those so far.
pub fn add_scores_to_leaderboard<A, S: AnswerHandler<A>>(slide: &S, leaderboard: &mut Leaderboard, stage: &Stage)
    requires
        slide.wf(),
        stage.wf(),
        old(leaderboard).wf(),
    ensures
        final(leaderboard).wf(),
        scored(*slide, *stage, *old(leaderboard), *final(leaderboard)),
{
    let scores = round_scores(slide, stage);
    leaderboard.add_scores(&scores);
}

/// A slide that goes through its phases.
pub trait PhasedSlide<A>: AnswerHandler<A> {
    /// Whether entering a phase leads from here to `after`, with these effects.
    spec fn entered(&self, after: &Self, phase: SlideState, stage: Stage, effects: Seq<Effect>) -> bool;

    /// Whether showing the results leads from here to `after`, with these effects.
    spec fn results_sent(&self, after: &Self, effects: Seq<Effect>) -> bool;

    /// What the host hears of the number of answers.
    spec fn spec_answers_count_message(count: usize) -> crate::UpdateMessage;

    /// What the host hears of the number of answers.
    fn answers_count_message(count: usize) -> (message: crate::UpdateMessage)
        ensures
            message == Self::spec_answers_count_message(count),
    ;

    /// Shows the results, if they are due.
    fn send_answers_results(&mut self) -> (effects: Vec<Effect>)
        requires
            old(self).wf(),
        ensures
            final(self).wf(),
            old(self).results_sent(final(self), effects@),
    ;

    /// Enters a phase, if it is the next one.
    fn enter_phase(&mut self, phase: SlideState, stage: &Stage) -> (effects: Vec<Effect>)
        requires
            old(self).wf(),
            stage.wf(),
        ensures
            final(self).wf(),
            old(self).entered(final(self), phase, *stage, effects@),
    ;
}

/// The host hears of the number of answers.
pub open spec fn count_told<A, S: PhasedSlide<A>>(count: usize) -> Effect {
    Effect::Send { to: Audience::Kind(ValueKind::Host), message: S::spec_answers_count_message(count) }
}

/// Whether what follows an answer leads from `before` to `after`, with these effects.
pub open spec fn answer_followed_up<A, S: PhasedSlide<A>>(before: S, after: S, stage: Stage, effects: Seq<Effect>) -> bool {
    match post_answer(before.book().live_answered_count, stage.watchers.present(ValueKind::Player).len()) {
        PostAnswer::Results => before.results_sent(&after, effects),
        PostAnswer::Count(count) => after == before && effects == seq![count_told::<A, S>(count)],
        PostAnswer::Nothing => after == before && effects.len() == 0,
    }
}

/// Whether moving on leads from `before` to `after`, with this action and these effects.
pub open spec fn moved_on<A, S: PhasedSlide<A>>(
    before: S,
    after: S,
    stage: Stage,
    points_before: Leaderboard,
    points_after: Leaderboard,
    action: SlideAction,
    effects: Seq<Effect>,
) -> bool {
    match before.progress().state.spec_next() {
        Some(phase) => {
            &&& action == SlideAction::Stay
            &&& before.entered(&after, phase, stage, effects)
            &&& points_after == points_before
        },
        None => {
            &&& action == SlideAction::Next
            &&& after == before
            &&& effects.len() == 0
            &&& scored(before, stage, points_before, points_after)
        },
    }
}

/// Does what follows an answer.
pub fn handle_post_answer<A, S: PhasedSlide<A>>(slide: &mut S, stage: &Stage) -> (effects: Vec<Effect>)
    requires
        old(slide).wf(),
        stage.wf(),
    ensures
        final(slide).wf(),
        answer_followed_up(*old(slide), *final(slide), *stage, effects@),
{
    match after_answer(slide.answer_book(), stage.watchers) {
        PostAnswer::Results => slide.send_answers_results(),
        PostAnswer::Count(count) => {
            let mut effects: Vec<Effect> = Vec::new();
            effects.push(
                Effect::Send {
                    to: Audience::Kind(ValueKind::Host),
                    message: S::answers_count_message(count),
                },
            );
            assert(effects@ =~= seq![count_told::<A, S>(count)]);
            effects
        },
        PostAnswer::Nothing => Vec::new(),
    }
}

/// Moves on: to the next phase, or past the slide, once its points are given.
pub fn default_receive_host_next<A, S: PhasedSlide<A>>(slide: &mut S, leaderboard: &mut Leaderboard, stage: &Stage) -> (result: (
    SlideAction,
    Vec<Effect>,
))
    requires
        old(slide).wf(),
        stage.wf(),
        old(leaderboard).wf(),
    ensures
        final(slide).wf(),
        final(leaderboard).wf(),
        moved_on(*old(slide), *final(slide), *stage, *old(leaderboard), *final(leaderboard), result.0, result.1@),
{
    match slide.slide_core().state.next() {
        Some(phase) => {
            let effects = slide.enter_phase(phase, stage);
            (SlideAction::Stay, effects)
        },
        None => {
            add_scores_to_leaderboard::<A, S>(slide, leaderboard, stage);
            (SlideAction::Next, Vec::new())
        },
    }
}

/// Enters the phase that an alarm asks for, if it is the next one.
pub fn default_receive_alarm<A, S: PhasedSlide<A>>(slide: &mut S, to: SlideState, stage: &Stage) -> (result: (SlideAction, Vec<Effect>))
    requires
        old(slide).wf(),
        stage.wf(),
    ensures
        final(slide).wf(),
        result.0 == SlideAction::Stay,
        old(slide).entered(final(slide), to, *stage, result.1@),
{
    (SlideAction::Stay, slide.enter_phase(to, stage))
}

/// A slide that hears from host and players.
pub trait QuestionReceiveMessage<A>: PhasedSlide<A> {
    /// Whether a player's message leads from here to `after`, with these effects.
    spec fn answered(
        &self,
        after: &Self,
        watcher_id: Id,
        message: IncomingPlayerMessage,
        stage: Stage,
        effects: Seq<Effect>,
    ) -> bool;

    /// Takes a player's message.
    fn receive_player_message(&mut self, watcher_id: Id, message: IncomingPlayerMessage, stage: &Stage) -> (effects: Vec<
        Effect,
    >)
        requires
            old(self).wf(),
            stage.wf(),
            old(self).book().live_answered_count < usize::MAX,
        ensures
            final(self).wf(),
            old(self).answered(final(self), watcher_id, message, *stage, effects@),
    ;
}

/// Whether a message leads from `before` to `after`, with this action and these effects.
pub open spec fn message_taken<A, S: QuestionReceiveMessage<A>>(
    before: S,
    after: S,
    watcher_id: Id,
    message: IncomingMessage,
    stage: Stage,
    points_before: Leaderboard,
    points_after: Leaderboard,
    action: SlideAction,
    effects: Seq<Effect>,
) -> bool {
    match message {
        IncomingMessage::Host(IncomingHostMessage::Next) => moved_on(
            before,
            after,
            stage,
            points_before,
            points_after,
            action,
            effects,
        ),
        IncomingMessage::Player(player_message) => {
            &&& action == SlideAction::Stay
            &&& points_after == points_before
            &&& before.answered(&after, watcher_id, player_message, stage, effects)
        },
        _ => {
            &&& action == SlideAction::Stay
            &&& points_after == points_before
            &&& after == before
            &&& effects.len() == 0
        },
    }
}

/// Takes a message: the host moves the slide on, a player answers, and nothing else matters.
pub fn receive_message<A, S: QuestionReceiveMessage<A>>(
    slide: &mut S,
    watcher_id: Id,
    message: IncomingMessage,
    leaderboard: &mut Leaderboard,
    stage: &Stage,
) -> (result: (SlideAction, Vec<Effect>))
    requires
        old(slide).wf(),
        stage.wf(),
        old(leaderboard).wf(),
        old(slide).book().live_answered_count < usize::MAX,
    ensures
        final(slide).wf(),
        final(leaderboard).wf(),
        message_taken(
            *old(slide),
            *final(slide),
            watcher_id,
            message,
            *stage,
            *old(leaderboard),
            *final(leaderboard),
            result.0,
            result.1@,
        ),
{
    match message {
        IncomingMessage::Host(IncomingHostMessage::Next) => default_receive_host_next::<A, S>(slide, leaderboard, stage),
        IncomingMessage::Player(player_message) => {
            let effects = slide.receive_player_message(watcher_id, player_message, stage);
            (SlideAction::Stay, effects)
        },
        _ => (SlideAction::Stay, Vec::new()),
    }
}

// ---- what players can count on ----

/// The results of a question are due exactly where there are players present and none of them has yet
/// to answer; before that, a small number of answers is told to the host as it is.
pub proof fn results_wait_for_everyone(answered: usize, players: nat)
    ensures
        post_answer(answered, players) == PostAnswer::Results <==> players > 0 && answered >= players,
        everyone_answered(answered as nat, players) <==> players > 0 && answered >= players,
        post_answer(answered, players) matches PostAnswer::Count(count) ==> count == answered,
        answered < 32 && (answered < players || players == 0) ==> post_answer(answered, players) == PostAnswer::Count(
            answered,
        ),
        answered >= 32 && answered % 2 == 1 && (answered < players || players == 0) ==> post_answer(answered, players)
            == PostAnswer::Nothing,
{
    counts_announced(answered as nat);
}

/// Whether `score` is what is due for `points` after `taken` out of `window`: falling evenly, by half of
/// the points over the window, to nothing after twice the window; all points without a window.
pub open spec fn falls_evenly(score: nat, window: Option<nat>, taken: nat, points: nat) -> bool {
    match window {
        None => score == points,
        Some(window) => {
            &&& taken >= 2 * window ==> score == 0
            &&& taken < 2 * window ==> score * (2 * window) <= points * (2 * window - taken) < (score + 1) * (2
                * window)
        },
    }
}

/// Between the ends of the window points fall evenly with the time taken.
pub proof fn points_fall_evenly(window: nat, taken: nat, points: nat)
    ensures
        taken < 2 * window ==> slide_score(Some(window), taken, points) * (2 * window) <= points * (2 * window
            - taken) < (slide_score(Some(window), taken, points) + 1) * (2 * window),
        taken >= 2 * window ==> slide_score(Some(window), taken, points) == 0,
        slide_score(None, taken, points) == points,
        falls_evenly(slide_score(Some(window), taken, points), Some(window), taken, points),
        falls_evenly(slide_score(None, taken, points), None, taken, points),
{
    if taken < 2 * window {
        let w = 2 * window as int;
        let p = points * (2 * window - taken);
        assert(p >= 0) by (nonlinear_arith)
            requires
                p == points * (2 * window - taken),
                taken < 2 * window,
        ;
        vstd::arithmetic::div_mod::lemma_fundamental_div_mod(p, w);
        vstd::arithmetic::div_mod::lemma_mod_bound(p, w);
        vstd::arithmetic::div_mod::lemma_div_pos_is_pos(p, w);
        let score = slide_score(Some(window), taken, points) as int;
        assert(score == p / w);
        assert(score * w == w * score) by (nonlinear_arith);
        assert((score + 1) * w == w * score + w) by (nonlinear_arith);
    }
}

/// A score follows from what is due: no other number fits.
pub proof fn one_score_is_due(a: nat, b: nat, window: Option<nat>, taken: nat, points: nat)
    requires
        falls_evenly(a, window, taken, points),
        falls_evenly(b, window, taken, points),
    ensures
        a == b,
{
    if let Some(w) = window {
        if taken < 2 * w {
            let d = 2 * w as int;
            assert(a == b) by (nonlinear_arith)
                requires
                    d > 0,
                    a * d < (b + 1) * d,
                    b * d < (a + 1) * d,
            ;
        }
    }
}

/// A part of the points is the nearest whole number below that fraction of them.
pub proof fn parts_are_rounded_down(part: Multiplier, points: nat)
    requires
        part.denominator > 0,
    ensures
        part.of(points) * part.denominator <= points * part.numerator < (part.of(points) + 1) * part.denominator,
{
    let d = part.denominator as int;
    let p = points * part.numerator;
    assert(p >= 0) by (nonlinear_arith)
        requires
            p == points * part.numerator,
    ;
    vstd::arithmetic::div_mod::lemma_fundamental_div_mod(p, d);
    vstd::arithmetic::div_mod::lemma_mod_bound(p, d);
    vstd::arithmetic::div_mod::lemma_div_pos_is_pos(p, d);
    let part_of = part.of(points) as int;
    assert(part_of * d == d * part_of) by (nonlinear_arith);
    assert((part_of + 1) * d == d * part_of + d) by (nonlinear_arith);
}

/// The time left and the time gone make up the whole time, until nothing is left; without a start
/// nothing is gone, and without a time nothing is told.
pub proof fn time_runs_out(core: SlideCore, time: Option<Duration>, now: Timestamp, left: Option<Duration>)
    requires
        core.is_left(time, now, left),
    ensures
        left is Some <==> time is Some,
        core.answer_start is None && time is Some ==> nanos(left->0) == nanos(time->0),
        core.answer_start matches Some(start) ==> time is Some ==> {
            let gone = now.nanos_since_epoch - start.nanos_since_epoch;
            &&& gone <= 0 ==> nanos(left->0) == nanos(time->0)
            &&& 0 <= gone <= nanos(time->0) ==> nanos(left->0) + gone == nanos(time->0)
            &&& gone >= nanos(time->0) && gone >= 0 ==> nanos(left->0) == 0
        },
{
}

/// A slide is announced, then the question is shown, then answers are taken, then the results are
/// shown, and nothing follows.
pub proof fn phases_follow_each_other(phase: SlideState)
    ensures
        phase.spec_next() == Some(SlideState::Question) <==> phase == SlideState::Unstarted,
        phase.spec_next() == Some(SlideState::Answers) <==> phase == SlideState::Question,
        phase.spec_next() == Some(SlideState::AnswersResults) <==> phase == SlideState::Answers,
        phase.spec_next() is None <==> phase == SlideState::AnswersResults,
        phase.spec_next() != Some(SlideState::Unstarted),
{
}

/// Exactly those answers are counted as correct that are: one more correct answer counts one more.
pub proof fn correct_answers_are_counted<A, S: AnswerHandler<A>>(slide: S, id: Id)
    ensures
        correct_answers(slide).contains(id) <==> slide.book().answers().contains_key(id) && slide.is_correct(
            slide.book().answers()[id].0,
        ),
{
}

/// Whether the points of a player's answer go to `group`: to the player's team, or to the player without
/// one.
pub open spec fn counts_for(stage: Stage, player: Id, group: Id) -> bool {
    match stage.team_manager {
        None => player == group,
        Some(teams) => (teams.player_teams().contains_key(player) && teams.player_teams()[player] == group) || (
        !teams.player_teams().contains_key(player) && player == group),
    }
}

/// Whether `score` is due for an answer of a player before it is known how good it is: by the time since
/// answers were taken.
pub open spec fn is_due_in_time<A, S: AnswerHandler<A>>(slide: S, now: Timestamp, player: Id, score: nat) -> bool {
    let came = slide.book().answers()[player].1.nanos_since_epoch;
    let start = match slide.progress().answer_start {
        Some(start) => start.nanos_since_epoch,
        None => now.nanos_since_epoch,
    };
    falls_evenly(
        score,
        match slide.window() {
            Some(window) => Some(nanos(window)),
            None => None,
        },
        if came >= start {
            (came - start) as nat
        } else {
            0
        },
        slide.full_points() as nat,
    )
}

/// Whether `points` are due for the answer of a player: by the time since answers were taken, and then
/// the part that the answer is worth.
pub open spec fn is_due<A, S: AnswerHandler<A>>(slide: S, now: Timestamp, player: Id, points: u64) -> bool {
    let part = slide.multiplier(slide.book().answers()[player].0);
    exists|score: nat| {
        &&& #[trigger] is_due_in_time(slide, now, player, score)
        &&& points * part.denominator <= score * part.numerator < (points + 1) * part.denominator
    }
}

/// A round gives every group that is expected or answered one entry, and nobody else: what is due for
/// the first answer that counts for it, or nothing where there is none.
pub proof fn rounds_give_what_is_due<A, S: AnswerHandler<A>>(slide: S, stage: Stage, scores: Seq<(Id, u64)>, i: int)
    requires
        slide.wf(),
        is_round(slide, stage, scores),
        0 <= i < scores.len(),
    ensures
        forall|j: int| 0 <= j < scores.len() && j != i ==> (#[trigger] scores[j]).0 != scores[i].0,
        (exists|player: Id|
            slide.book().answers().contains_key(player) && #[trigger] counts_for(stage, player, scores[i].0)) ==> exists|
            player: Id,
        | {
            &&& #[trigger] counts_for(stage, player, scores[i].0)
            &&& slide.book().answers().contains_key(player)
            &&& is_due(slide, stage.now, player, scores[i].1)
            &&& forall|other: Id|
                slide.book().answers().contains_key(other) && #[trigger] counts_for(stage, other, scores[i].0)
                    ==> slide.book().answers()[player].1.nanos_since_epoch
                    <= slide.book().answers()[other].1.nanos_since_epoch
        },
        (forall|player: Id|
            slide.book().answers().contains_key(player) ==> !#[trigger] counts_for(stage, player, scores[i].0))
            ==> scores[i].1 == 0 && match stage.team_manager {
            Some(teams) => teams.formed() is Some && exists|k: int|
                0 <= k < teams.formed()->0.len() && (#[trigger] teams.formed()->0[k]).0 == scores[i].0,
            None => stage.watchers.reachable(ValueKind::Player, stage.tunnels@).contains(scores[i].0),
        },
{
    let group = scores[i].0;
    assert forall|player: Id| #[trigger] counts_for(stage, player, group) <==> scorer(stage, player) == group by {}
    if has_answer(slide, stage, group) {
        let player = choose|player: Id| #[trigger]
            answered_first(slide, stage, group, player) && scores[i].1 == answer_points(slide, stage.now, player);
        assert(counts_for(stage, player, group));
        slide.recorded_answers(player);
        let (answer, instant) = slide.book().answers()[player];
        let window = match slide.window() {
            Some(window) => Some(nanos(window)),
            None => None,
        };
        let taken = instant.nanos_since(started(slide.progress().answer_start, stage.now));
        let points = slide.full_points() as nat;
        match window {
            Some(w) => points_fall_evenly(w, taken, points),
            None => {},
        }
        let score = slide_score(window, taken, points);
        parts_are_rounded_down(slide.multiplier(answer), score);
        assert(falls_evenly(score, window, taken, points));
        let worth = slide.multiplier(answer);
        assert(answer_points(slide, stage.now, player) == worth.of(score));
        assert(scores[i].1 as nat == worth.of(score));
        assert(scores[i].1 * worth.denominator <= score * worth.numerator < (scores[i].1 + 1) * worth.denominator);
        let start = match slide.progress().answer_start {
            Some(start) => start.nanos_since_epoch,
            None => stage.now.nanos_since_epoch,
        };
        assert(start == started(slide.progress().answer_start, stage.now).nanos_since_epoch);
        assert(is_due_in_time(slide, stage.now, player, score));
        assert(is_due(slide, stage.now, player, scores[i].1));
        assert forall|other: Id|
            slide.book().answers().contains_key(other) && #[trigger] counts_for(stage, other, group) implies slide.book().answers()[player].1.nanos_since_epoch
            <= slide.book().answers()[other].1.nanos_since_epoch by {
            assert(scorer(stage, other) == group);
        }
    } else {
        assert(expected(stage).contains(group));
        let k = choose|k: int| 0 <= k < expected(stage).len() && expected(stage)[k] == group;
        if let Some(teams) = stage.team_manager {
            assert(teams.formed()->0[k].0 == group);
        }
    }
}

/// Everyone who answered is in the round, by team or alone; and so are all teams, or all players who can
/// be reached where there are none.
pub proof fn nobody_is_missing_in_a_round<A, S: AnswerHandler<A>>(slide: S, stage: Stage, scores: Seq<(Id, u64)>, group: Id)
    requires
        is_round(slide, stage, scores),
        ({
            ||| exists|player: Id|
                slide.book().answers().contains_key(player) && #[trigger] counts_for(stage, player, group)
            ||| stage.team_manager is None && stage.watchers.reachable(ValueKind::Player, stage.tunnels@).contains(group)
            ||| stage.team_manager is Some && stage.team_manager->0.formed() is Some && exists|k: int|
                0 <= k < stage.team_manager->0.formed()->0.len() && (#[trigger] stage.team_manager->0.formed()->0[k]).0
                    == group
        }),
    ensures
        exists|i: int| 0 <= i < scores.len() && (#[trigger] scores[i]).0 == group,
{
    if exists|player: Id| slide.book().answers().contains_key(player) && #[trigger] counts_for(stage, player, group) {
        let player = choose|player: Id|
            slide.book().answers().contains_key(player) && #[trigger] counts_for(stage, player, group);
        assert(scorer(stage, player) == group);
        assert(has_answer(slide, stage, group));
    } else {
        assert forall|player: Id| slide.book().answers().contains_key(player) implies #[trigger] scorer(stage, player)
            != group by {
            assert(!counts_for(stage, player, group));
        }
        if let Some(teams) = stage.team_manager {
            let k = choose|k: int| 0 <= k < teams.formed()->0.len() && (#[trigger] teams.formed()->0[k]).0 == group;
            assert(expected(stage)[k] == group);
        }
        assert(expected(stage).contains(group));
        assert(!has_answer(slide, stage, group));
    }
}

/// Points are given once, when the host moves on from the results; until then they stay as they are, and
/// after a player's message they always do.
pub proof fn points_are_given_at_the_end<A, S: QuestionReceiveMessage<A>>(
    before: S,
    after: S,
    watcher_id: Id,
    message: IncomingMessage,
    stage: Stage,
    points_before: Leaderboard,
    points_after: Leaderboard,
    action: SlideAction,
    effects: Seq<Effect>,
)
    requires
        message_taken(before, after, watcher_id, message, stage, points_before, points_after, action, effects),
    ensures
        action == SlideAction::Next <==> message == IncomingMessage::Host(IncomingHostMessage::Next)
            && before.progress().state == SlideState::AnswersResults,
        action == SlideAction::Stay ==> points_after == points_before,
        action == SlideAction::Next ==> after == before && exists|scores: Seq<(Id, u64)>| #[trigger]
            is_round(before, stage, scores) && points_after.history() == points_before.history().push(scores),
        !(message is Player) && message != IncomingMessage::Host(IncomingHostMessage::Next) ==> after == before
            && effects.len() == 0,
{
}

// ---- what calls give ----

/// Points by the time taken: all without a window, none from twice the window on, and between that they
/// fall evenly.
pub proof fn scores_go_by_the_time_taken(full: Option<Duration>, taken: Duration, points: u64, score: u64)
    requires
        call_ensures(calculate_slide_score, (full, taken, points), score),
    ensures
        full is None ==> score == points,
        full matches Some(window) ==> {
            let twice = 2 * nanos(window);
            &&& nanos(taken) >= twice ==> score == 0
            &&& nanos(taken) < twice ==> score * twice <= points * (twice - nanos(taken)) < (score + 1) * twice
        },
{
    if let Some(window) = full {
        points_fall_evenly(nanos(window), nanos(taken), points as nat);
    }
}

/// Taking longer never earns more, and answering at once earns everything.
pub proof fn taking_longer_earns_no_more(
    full: Option<Duration>,
    first: Duration,
    second: Duration,
    points: u64,
    first_score: u64,
    second_score: u64,
)
    requires
        call_ensures(calculate_slide_score, (full, first, points), first_score),
        call_ensures(calculate_slide_score, (full, second, points), second_score),
        nanos(first) <= nanos(second),
    ensures
        second_score <= first_score <= points,
        nanos(first) == 0 && (full matches Some(window) ==> nanos(window) > 0) ==> first_score == points,
{
    if let Some(window) = full {
        let twice = 2 * nanos(window) as int;
        let a = nanos(first) as int;
        let b = nanos(second) as int;
        let p = points as int;
        let s = first_score as int;
        let t = second_score as int;
        scores_go_by_the_time_taken(full, first, points, first_score);
        scores_go_by_the_time_taken(full, second, points, second_score);
        if a < twice {
            assert(s <= p) by (nonlinear_arith)
                requires
                    0 <= a < twice,
                    p >= 0,
                    s * twice <= p * (twice - a),
            ;
            if a == 0 {
                assert(s >= p) by (nonlinear_arith)
                    requires
                        0 < twice,
                        p * twice < (s + 1) * twice,
                ;
            }
            if b < twice {
                assert(t <= s) by (nonlinear_arith)
                    requires
                        0 <= a <= b < twice,
                        p >= 0,
                        t * twice <= p * (twice - b),
                        p * (twice - a) < (s + 1) * twice,
                ;
            }
        }
    }
}

/// The time left and the time gone since the start make up the whole time, until nothing is left.
pub proof fn time_left_and_time_gone_make_the_whole(
    core: SlideCore,
    start: Timestamp,
    time: Duration,
    now: Timestamp,
    left: Option<Duration>,
)
    requires
        call_ensures(SlideCore::time_left, (&core, Some(time), now), left),
        core.answer_start == Some(start),
        start.nanos_since_epoch <= now.nanos_since_epoch,
    ensures
        left is Some,
        ({
            let gone = now.nanos_since_epoch - start.nanos_since_epoch;
            &&& gone <= nanos(time) ==> nanos(left->0) + gone == nanos(time)
            &&& gone >= nanos(time) ==> nanos(left->0) == 0
        }),
{
    time_runs_out(core, Some(time), now, left);
}

/// Before anything starts the whole time is left, and where no time is set none is told.
pub proof fn the_whole_time_is_left_at_first(core: SlideCore, time: Option<Duration>, now: Timestamp, left: Option<Duration>)
    requires
        call_ensures(SlideCore::time_left, (&core, time, now), left),
    ensures
        time is None <==> left is None,
        core.answer_start is None && time is Some ==> nanos(left->0) == nanos(time->0),
{
}

/// Everyone has answered where there are players and as many answers of those present; only then the results
/// are due.
pub proof fn everyone_means_everyone<A>(book: AnswerBook<A>, watchers: Watchers, all: bool, next: PostAnswer)
    requires
        call_ensures(all_players_answered::<A>, (&book, &watchers), all),
        call_ensures(after_answer::<A>, (&book, &watchers), next),
    ensures
        all <==> watchers.present(ValueKind::Player).len() > 0 && book.live_answered_count
            >= watchers.present(ValueKind::Player).len(),
        next == PostAnswer::Results <==> watchers.present(ValueKind::Player).len() > 0 && book.live_answered_count
            >= watchers.present(ValueKind::Player).len(),
        next matches PostAnswer::Count(count) ==> count == book.live_answered_count,
        !all && book.live_answered_count < 32 ==> next == PostAnswer::Count(book.live_answered_count),
{
    results_wait_for_everyone(book.live_answered_count, watchers.present(ValueKind::Player).len());
}

/// A part of points is the largest whole number that is not more than it; the whole is everything, and
/// nothing is nothing.
pub proof fn parts_of_points_are_rounded_down(part: Multiplier, points: u64, earned: u64)
    requires
        part.wf(),
        call_ensures(Multiplier::apply, (part, points), earned),
    ensures
        earned * part.denominator <= points * part.numerator < (earned + 1) * part.denominator,
        part.numerator == part.denominator ==> earned == points,
        part.numerator == 0 ==> earned == 0,
{
    parts_are_rounded_down(part, points as nat);
    let d = part.denominator as int;
    let e = earned as int;
    let p = points as int;
    if part.numerator == part.denominator {
        assert(e == p) by (nonlinear_arith)
            requires
                d > 0,
                e * d <= p * d < (e + 1) * d,
        ;
    }
    if part.numerator == 0 {
        assert(e == 0) by (nonlinear_arith)
            requires
                d > 0,
                e >= 0,
                e * d <= p * 0,
        ;
    }
}

/// A quotient and a remainder make up what was divided.
pub proof fn quotients_and_remainders_add_up(factor: u64, numerator: u128, denominator: u128, result: (u64, u128))
    requires
        0 < denominator,
        call_ensures(scale, (factor, numerator, denominator), result),
    ensures
        result.0 * denominator + result.1 == factor * numerator,
        result.1 < denominator,
{
    vstd::arithmetic::div_mod::lemma_fundamental_div_mod(factor * numerator, denominator as int);
    vstd::arithmetic::div_mod::lemma_mod_bound(factor * numerator, denominator as int);
    assert(result.0 * denominator == denominator * result.0) by (nonlinear_arith);
}

/// The host hears of every number of answers below thirty-two, then only of some: of none that is odd, and
/// of a number exactly where it hears of its double.
pub proof fn some_counts_are_announced(count: usize, announced: bool, twice: usize, twice_announced: bool)
    requires
        call_ensures(should_announce_answered_count, (count,), announced),
        call_ensures(should_announce_answered_count, (twice,), twice_announced),
        twice == 2 * count,
    ensures
        count < 32 ==> announced,
        count >= 32 && count % 2 == 1 ==> !announced,
        announced == twice_announced,
{
    counts_announced(count as nat);
}

} // verus!
