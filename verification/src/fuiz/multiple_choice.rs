//! Multiple choice slides.
use std::time::Duration;

use vstd::prelude::*;
use vstd::utf8::encode_utf8;

use crate::fuiz::common::{
    answer_followed_up, default_receive_alarm, handle_post_answer, is_zero, AnswerBook, AnswerHandler, Multiplier, PhasedSlide, ProceedFromSlideIntoSlide,
    QuestionReceiveMessage, SlideCore, SlideState, SlideStateManager, SlideTimer,
};
use crate::fuiz::config::{SlideAction, TextOrMedia};
use crate::fuiz::media::{copy_media, Image, Media};
use crate::game::IncomingPlayerMessage;
use crate::seqs::{lemma_count_keys, lemma_filter_take};
use crate::session::{Audience, Effect, Stage};
use crate::settings::{verdict, within, Invalid, Settings};
use crate::time::{nanos, Timestamp};
use crate::watcher::{Id, ValueKind};

verus! {

/// Where a slide is on its way.
pub type Phase = SlideState;

/// An alarm that moves a slide on.
pub type AlarmMessage = ProceedFromSlideIntoSlide;

/// How many choices an answer may hold.
#[derive(Copy, Clone, Debug, PartialEq, Eq, Structural)]
pub enum AnswerMode {
    /// One.
    SingleAnswer,
    /// One or more.
    MultipleAnswers,
}

impl Default for AnswerMode {
    fn default() -> (mode: Self)
        ensures
            mode == AnswerMode::SingleAnswer,
    {
        AnswerMode::SingleAnswer
    }
}

/// A choice.
#[derive(Debug)]
pub struct AnswerChoice {
    /// Whether it is correct.
    pub correct: bool,
    /// What it shows.
    pub content: TextOrMedia,
}

impl Clone for AnswerChoice {
    fn clone(&self) -> (copy: Self)
        ensures
            copy == *self,
    {
        AnswerChoice { correct: self.correct, content: self.content.clone() }
    }
}

/// A multiple choice question.
#[derive(Debug)]
pub struct SlideConfig {
    /// The question.
    pub title: String,
    /// A picture with it.
    pub media: Option<Media>,
    /// For how long the slide is announced.
    pub introduce_slide: Option<Duration>,
    /// For how long the question is shown without the choices.
    pub introduce_question: Option<Duration>,
    /// For how long answers are taken.
    pub time_limit: Option<Duration>,
    /// The most points for an answer.
    pub points_awarded: u64,
    /// The choices.
    pub answers: Vec<AnswerChoice>,
    /// How many choices an answer may hold.
    pub answer_mode: AnswerMode,
}

/// A multiple choice slide.
#[derive(Debug)]
pub struct State {
    /// The question.
    pub config: SlideConfig,
    /// The answers, as numbers of choices.
    pub book: AnswerBook<Vec<usize>>,
    /// Where the slide is on its way.
    pub core: SlideCore,
}

/// Something that may be kept from someone.
#[derive(Debug)]
pub enum PossiblyHidden<T> {
    /// It is shown.
    Visible(T),
    /// It is not.
    Hidden,
}

/// How a choice fared.
#[derive(Copy, Clone, Debug, PartialEq, Eq, Structural)]
pub struct AnswerChoiceResult {
    /// Whether it is correct.
    pub correct: bool,
    /// How many chose it.
    pub count: usize,
}

/// What is new on a multiple choice slide.
#[allow(inconsistent_fields)]
#[derive(Debug)]
pub enum UpdateMessage {
    /// The slide is announced.
    SlideAnnouncement {
        /// The number of the slide.
        index: usize,
        /// The number of slides.
        count: usize,
        /// The most points for an answer.
        points_awarded: u64,
        /// For how long it is announced.
        duration: Option<Duration>,
    },
    /// The question is shown.
    QuestionAnnouncement {
        /// The number of the slide.
        index: usize,
        /// The number of slides.
        count: usize,
        /// The question.
        question: String,
        /// A picture with it.
        media: Option<Media>,
        /// For how long it is shown without the choices.
        duration: Option<Duration>,
    },
    /// The choices are shown.
    AnswersAnnouncement {
        /// For how long answers are taken.
        duration: Option<Duration>,
        /// The choices.
        answers: Vec<PossiblyHidden<TextOrMedia>>,
        /// How many choices an answer may hold.
        answer_mode: AnswerMode,
    },
    /// So many have answered.
    AnswersCount(usize),
    /// The results are shown.
    AnswersResults {
        /// The choices.
        answers: Vec<TextOrMedia>,
        /// How each fared.
        results: Vec<AnswerChoiceResult>,
    },
}

/// How things stand on a multiple choice slide.
#[allow(inconsistent_fields)]
#[derive(Debug)]
pub enum SyncMessage {
    /// The slide is announced.
    SlideAnnouncement {
        /// The number of the slide.
        index: usize,
        /// The number of slides.
        count: usize,
        /// The most points for an answer.
        points_awarded: u64,
        /// For how long it is announced.
        duration: Option<Duration>,
    },
    /// The question is shown.
    QuestionAnnouncement {
        /// The number of the slide.
        index: usize,
        /// The number of slides.
        count: usize,
        /// The question.
        question: String,
        /// A picture with it.
        media: Option<Media>,
        /// For how long it is still shown without the choices.
        duration: Option<Duration>,
    },
    /// The choices are shown.
    AnswersAnnouncement {
        /// The number of the slide.
        index: usize,
        /// The number of slides.
        count: usize,
        /// The question.
        question: String,
        /// A picture with it.
        media: Option<Media>,
        /// For how long answers are still taken.
        duration: Option<Duration>,
        /// The choices.
        answers: Vec<PossiblyHidden<TextOrMedia>>,
        /// How many have answered.
        answered_count: usize,
        /// How many choices an answer may hold.
        answer_mode: AnswerMode,
    },
    /// The results are shown.
    AnswersResults {
        /// The number of the slide.
        index: usize,
        /// The number of slides.
        count: usize,
        /// The question.
        question: String,
        /// A picture with it.
        media: Option<Media>,
        /// The choices.
        answers: Vec<TextOrMedia>,
        /// How each fared.
        results: Vec<AnswerChoiceResult>,
    },
}

fn copy_choices(choices: &Vec<AnswerChoice>) -> (copy: Vec<AnswerChoice>)
    ensures
        copy@ == choices@,
{
    let mut copy: Vec<AnswerChoice> = Vec::new();
    let mut i: usize = 0;
    while i < choices.len()
        invariant
            i <= choices.len(),
            copy@ == choices@.take(i as int),
        decreases choices.len() - i,
    {
        copy.push(choices[i].clone());
        i = i + 1;
        assert(copy@ =~= choices@.take(i as int));
    }
    assert(copy@ =~= choices@);
    copy
}

impl Clone for SlideConfig {
    fn clone(&self) -> (copy: Self)
        ensures
            copy.same(self),
    {
        SlideConfig {
            title: self.title.clone(),
            media: copy_media(&self.media),
            introduce_slide: self.introduce_slide,
            introduce_question: self.introduce_question,
            time_limit: self.time_limit,
            points_awarded: self.points_awarded,
            answers: copy_choices(&self.answers),
            answer_mode: self.answer_mode,
        }
    }
}

impl SlideConfig {
    /// Whether the two are the same question.
    pub open spec fn same(&self, other: &Self) -> bool {
        &&& self.title == other.title
        &&& self.media == other.media
        &&& self.introduce_slide == other.introduce_slide
        &&& self.introduce_question == other.introduce_question
        &&& self.time_limit == other.time_limit
        &&& self.points_awarded == other.points_awarded
        &&& self.answers@ == other.answers@
        &&& self.answer_mode == other.answer_mode
    }

    /// The slide before it starts.
    pub fn to_state(&self) -> (state: State)
        ensures
            state.wf(),
            state.config.same(self),
            state.book.answers() == Map::<Id, (Vec<usize>, Timestamp)>::empty(),
            state.book.live_answered_count == 0,
            state.core == (SlideCore { state: SlideState::Unstarted, answer_start: None }),
    {
        State {
            config: self.clone(),
            book: AnswerBook::new(),
            core: SlideCore::default(),
        }
    }

    /// The first limit that the question breaks.
    pub open spec fn problem(&self, settings: Settings) -> Option<Invalid> {
        let question = settings.question;
        let length = encode_utf8(self.title@).len() as usize;
        if length < question.min_title_length || length > question.max_title_length {
            Some(Invalid::Length)
        } else if self.media is Some && self.media->0.problem(settings.corkboard) is Some {
            self.media->0.problem(settings.corkboard)
        } else if !within(self.introduce_slide, question.min_introduce_slide, question.max_introduce_slide) {
            Some((Invalid::OutOfBounds { min: question.min_introduce_slide, max: question.max_introduce_slide }))
        } else if !within(self.introduce_question, question.min_introduce_question, question.max_introduce_question) {
            Some((Invalid::OutOfBounds { min: question.min_introduce_question, max: question.max_introduce_question }))
        } else if !within(self.time_limit, question.min_time_limit, question.max_time_limit) {
            Some((Invalid::OutOfBounds { min: question.min_time_limit, max: question.max_time_limit }))
        } else if self.answers@.len() > settings.multiple_choice.max_answer_count || some_choice_too_long(
            self.answers@,
            settings,
        ) {
            Some(Invalid::Length)
        } else {
            None
        }
    }

    /// Tells what is wrong with the question, if anything. The length of the question is that in bytes.
    pub fn validate_with(&self, settings: &Settings) -> (result: Result<(), Invalid>)
        ensures
            result == verdict(self.problem(*settings)),
    {
        let length: usize = self.title.as_str().len();
        if length < settings.question.min_title_length || length > settings.question.max_title_length {
            return Err(Invalid::Length);
        }
        if let Some(media) = &self.media {
            let result = media.validate_with(&settings.corkboard);
            if result.is_err() {
                return result;
            }
        }
        if let Err(problem) = settings.question.validate_introduce_slide(&self.introduce_slide) {
            return Err(problem);
        }
        if let Err(problem) = settings.question.validate_introduce_question(&self.introduce_question) {
            return Err(problem);
        }
        if let Err(problem) = settings.question.validate_time_limit(&self.time_limit) {
            return Err(problem);
        }
        if self.answers.len() > settings.multiple_choice.max_answer_count || any_choice_too_long(
            &self.answers,
            settings,
        ) {
            Err(Invalid::Length)
        } else {
            Ok(())
        }
    }
}

/// Whether what some choice holds breaks its limits.
pub open spec fn some_choice_too_long(choices: Seq<AnswerChoice>, settings: Settings) -> bool {
    exists|i: int| 0 <= i < choices.len() && (#[trigger] choices[i]).content.problem(settings) is Some
}

fn any_choice_too_long(choices: &Vec<AnswerChoice>, settings: &Settings) -> (result: bool)
    ensures
        result == some_choice_too_long(choices@, *settings),
{
    let mut i: usize = 0;
    while i < choices.len()
        invariant
            i <= choices.len(),
            forall|j: int| 0 <= j < i ==> (#[trigger] choices@[j]).content.problem(*settings) is None,
        decreases choices.len() - i,
    {
        if choices[i].content.validate_with(settings).is_err() {
            assert(choices@[i as int].content.problem(*settings) is Some);
            return true;
        }
        i = i + 1;
    }
    false
}

// ---- what answers are worth ----

/// Whether choice `i` is there and correct.
pub open spec fn is_correct_choice(choices: Seq<AnswerChoice>, i: usize) -> bool {
    i < choices.len() && choices[i as int].correct
}

/// How many choices are correct.
pub open spec fn total_correct(choices: Seq<AnswerChoice>) -> nat {
    choices.filter(|choice: AnswerChoice| choice.correct).len()
}

/// How many of the choices picked are correct.
pub open spec fn correct_picked(choices: Seq<AnswerChoice>, answer: Seq<usize>) -> nat {
    answer.filter(|i: usize| is_correct_choice(choices, i)).len()
}

/// The part of the points for several choices: those correct less those wrong, out of all correct
/// ones, and never less than nothing.
pub open spec fn partial_credit(choices: Seq<AnswerChoice>, answer: Seq<usize>) -> Multiplier {
    let right = correct_picked(choices, answer);
    let wrong = answer.len() - right;
    if total_correct(choices) == 0 {
        Multiplier { numerator: 0, denominator: 1 }
    } else {
        Multiplier {
            numerator: if right > wrong {
                (right - wrong) as usize
            } else {
                0
            },
            denominator: total_correct(choices) as usize,
        }
    }
}

proof fn lemma_total_step(choices: Seq<AnswerChoice>)
    requires
        choices.len() > 0,
    ensures
        total_correct(choices) == total_correct(choices.drop_last()) + if choices.last().correct { 1int } else { 0int },
{
    reveal(Seq::filter);
}

proof fn lemma_picks(choices: Seq<AnswerChoice>, picks: Seq<usize>)
    requires
        picks.no_duplicates(),
        forall|j: int| 0 <= j < picks.len() ==> is_correct_choice(choices, #[trigger] picks[j]),
    ensures
        picks.len() <= total_correct(choices),
    decreases choices.len(),
{
    if choices.len() == 0 {
        if picks.len() > 0 {
            assert(is_correct_choice(choices, picks[0]));
        }
    } else {
        lemma_total_step(choices);
        let rest = choices.drop_last();
        if exists|j: int| 0 <= j < picks.len() && #[trigger] picks[j] == choices.len() - 1 {
            let j = choose|j: int| 0 <= j < picks.len() && #[trigger] picks[j] == choices.len() - 1;
            assert(is_correct_choice(choices, picks[j]));
            let others = picks.remove(j);
            assert forall|k: int| 0 <= k < others.len() implies is_correct_choice(rest, #[trigger] others[k]) by {
                let m = if k < j { k } else { k + 1 };
                assert(others[k] == picks[m]);
                assert(picks[m] != picks[j]);
                assert(is_correct_choice(choices, picks[m]));
            }
            assert forall|k: int, m: int| 0 <= k < m < others.len() implies others[k] != others[m] by {
                let a = if k < j { k } else { k + 1 };
                let b = if m < j { m } else { m + 1 };
                assert(picks[a] != picks[b]);
            }
            lemma_picks(rest, others);
        } else {
            assert forall|k: int| 0 <= k < picks.len() implies is_correct_choice(rest, #[trigger] picks[k]) by {
                assert(is_correct_choice(choices, picks[k]));
            }
            lemma_picks(rest, picks);
        }
    }
}

proof fn lemma_filter_usize(items: Seq<usize>, pred: spec_fn(usize) -> bool)
    requires
        items.no_duplicates(),
    ensures
        items.filter(pred).no_duplicates(),
        items.filter(pred).len() <= items.len(),
        forall|j: int| 0 <= j < items.filter(pred).len() ==> pred(#[trigger] items.filter(pred)[j]),
{
    crate::seqs::lemma_filter_no_duplicates(items, pred);
    items.lemma_filter_len(pred);
    assert forall|j: int| 0 <= j < items.filter(pred).len() implies pred(#[trigger] items.filter(pred)[j]) by {
        assert(items.filter(pred).contains(items.filter(pred)[j]));
    }
}

/// Partial credit is a part: no answer without repetitions earns more than all points.
pub proof fn partial_credit_is_a_part(choices: Seq<AnswerChoice>, answer: Seq<usize>)
    requires
        choices.len() <= usize::MAX,
        answer.no_duplicates(),
    ensures
        partial_credit(choices, answer).wf(),
        correct_picked(choices, answer) <= total_correct(choices) <= choices.len(),
        correct_picked(choices, answer) <= answer.len(),
{
    let pred = |i: usize| is_correct_choice(choices, i);
    lemma_filter_usize(answer, pred);
    let picks = answer.filter(pred);
    assert forall|j: int| 0 <= j < picks.len() implies is_correct_choice(choices, #[trigger] picks[j]) by {
        assert(pred(picks[j]));
    }
    lemma_picks(choices, picks);
    choices.lemma_filter_len(|choice: AnswerChoice| choice.correct);
}

impl SlideConfig {
    /// The part of the points for several choices.
    pub fn compute_score_multiplier(&self, answer: &Vec<usize>) -> (multiplier: Multiplier)
        requires
            answer@.no_duplicates(),
        ensures
            multiplier == partial_credit(self.answers@, answer@),
            multiplier.wf(),
    {
        let ghost correct = |choice: AnswerChoice| choice.correct;
        let ghost picked = |i: usize| is_correct_choice(self.answers@, i);
        let mut total: usize = 0;
        let mut i: usize = 0;
        while i < self.answers.len()
            invariant
                i <= self.answers.len(),
                total <= i,
                correct == (|choice: AnswerChoice| choice.correct),
                total == self.answers@.take(i as int).filter(correct).len(),
            decreases self.answers.len() - i,
        {
            proof {
                lemma_filter_take(self.answers@, correct, i as int);
            }
            if self.answers[i].correct {
                total = total + 1;
            }
            i = i + 1;
        }
        assert(self.answers@.take(i as int) =~= self.answers@);
        let mut right: usize = 0;
        let mut j: usize = 0;
        while j < answer.len()
            invariant
                j <= answer.len(),
                right <= j,
                picked == (|i: usize| is_correct_choice(self.answers@, i)),
                right == answer@.take(j as int).filter(picked).len(),
            decreases answer.len() - j,
        {
            proof {
                lemma_filter_take(answer@, picked, j as int);
            }
            if answer[j] < self.answers.len() && self.answers[answer[j]].correct {
                right = right + 1;
            }
            j = j + 1;
        }
        proof {
            assert(answer@.take(j as int) =~= answer@);
            partial_credit_is_a_part(self.answers@, answer@);
        }
        if total == 0 {
            return Multiplier { numerator: 0, denominator: 1 };
        }
        let wrong: usize = answer.len() - right;
        Multiplier {
            numerator: if right > wrong {
                right - wrong
            } else {
                0
            },
            denominator: total,
        }
    }
}

impl AnswerHandler<Vec<usize>> for State {
    open spec fn wf(&self) -> bool {
        forall|id: Id| #[trigger]
            self.book.answers().contains_key(id) ==> self.book.answers()[id].0@.no_duplicates()
    }

    open spec fn book(&self) -> AnswerBook<Vec<usize>> {
        self.book
    }

    open spec fn progress(&self) -> SlideCore {
        self.core
    }

    open spec fn is_correct(&self, answer: Vec<usize>) -> bool {
        match self.config.answer_mode {
            AnswerMode::SingleAnswer => answer@.len() == 1 && is_correct_choice(self.config.answers@, answer@[0]),
            AnswerMode::MultipleAnswers => total_correct(self.config.answers@) > 0 && correct_picked(
                self.config.answers@,
                answer@,
            ) > answer@.len() - correct_picked(self.config.answers@, answer@),
        }
    }

    open spec fn recordable(&self, answer: Vec<usize>) -> bool {
        answer@.no_duplicates()
    }

    open spec fn multiplier(&self, answer: Vec<usize>) -> Multiplier {
        match self.config.answer_mode {
            AnswerMode::SingleAnswer => Multiplier::spec_whole(self.is_correct(answer)),
            AnswerMode::MultipleAnswers => partial_credit(self.config.answers@, answer@),
        }
    }

    open spec fn full_points(&self) -> u64 {
        self.config.points_awarded
    }

    open spec fn window(&self) -> Option<Duration> {
        self.config.time_limit
    }

    proof fn recorded_answers(&self, id: Id) {
        assert(self.config.answers@.len() == self.config.answers.len());
        partial_credit_is_a_part(self.config.answers@, self.book.answers()[id].0@);
    }

    fn answer_book(&self) -> (book: &AnswerBook<Vec<usize>>) {
        &self.book
    }

    fn slide_core(&self) -> (core: SlideCore) {
        self.core
    }

    fn is_correct_answer(&self, answer: &Vec<usize>) -> (correct: bool) {
        match self.config.answer_mode {
            AnswerMode::SingleAnswer => answer.len() == 1 && answer[0] < self.config.answers.len()
                && self.config.answers[answer[0]].correct,
            AnswerMode::MultipleAnswers => {
                proof {
                    assert(self.config.answers@.len() == self.config.answers.len());
                    partial_credit_is_a_part(self.config.answers@, answer@);
                }
                self.config.compute_score_multiplier(answer).numerator > 0
            },
        }
    }

    fn score_multiplier(&self, answer: &Vec<usize>) -> (multiplier: Multiplier) {
        match self.config.answer_mode {
            AnswerMode::SingleAnswer => Multiplier::whole(self.is_correct_answer(answer)),
            AnswerMode::MultipleAnswers => self.config.compute_score_multiplier(answer),
        }
    }

    fn max_points(&self) -> (points: u64) {
        self.config.points_awarded
    }

    fn time_limit(&self) -> (limit: Option<Duration>) {
        self.config.time_limit
    }
}

// ---- who sees which choices ----

/// Whether a player at place `team_index` of `team_size` sees choice `i` of `count`.
pub open spec fn sees(i: int, count: nat, team_size: nat, team_index: nat) -> bool {
    i % (team_size as int) == (team_index % team_size) % count
}

/// The choices as someone sees them.
pub open spec fn shown(
    choices: Seq<AnswerChoice>,
    kind: ValueKind,
    team_size: nat,
    team_index: nat,
    is_team: bool,
) -> Seq<PossiblyHidden<TextOrMedia>> {
    Seq::new(
        choices.len(),
        |i: int|
            if match kind {
                ValueKind::Player => sees(i, choices.len(), team_size, team_index),
                _ => !is_team,
            } {
                PossiblyHidden::Visible(choices[i].content)
            } else {
                PossiblyHidden::Hidden
            },
    )
}

/// The members of a team together see every choice.
pub proof fn teams_see_every_choice(i: int, count: nat, team_size: nat)
    requires
        0 <= i < count,
        0 < team_size,
    ensures
        (i % (team_size as int)) < team_size,
        sees(i, count, team_size, (i % (team_size as int)) as nat),
{
    let place = i % (team_size as int);
    assert(0 <= place < team_size && place <= i) by (nonlinear_arith)
        requires
            0 <= i,
            0 < team_size,
            place == i % (team_size as int),
    ;
    vstd::arithmetic::div_mod::lemma_small_mod(place as nat, team_size);
    vstd::arithmetic::div_mod::lemma_small_mod(place as nat, count);
}

/// In a team that has no more members than there are choices, no two of them see the same choice.
pub proof fn choices_are_dealt_out(i: int, count: nat, team_size: nat, a: nat, b: nat)
    requires
        0 <= i < count,
        0 < team_size <= count,
        a < team_size,
        b < team_size,
        sees(i, count, team_size, a),
        sees(i, count, team_size, b),
    ensures
        a == b,
{
    vstd::arithmetic::div_mod::lemma_small_mod(a, team_size);
    vstd::arithmetic::div_mod::lemma_small_mod(b, team_size);
    vstd::arithmetic::div_mod::lemma_small_mod(a, count);
    vstd::arithmetic::div_mod::lemma_small_mod(b, count);
}

/// Every member of a team sees a choice, where there is any.
pub proof fn everyone_sees_a_choice(count: nat, team_size: nat, place: nat)
    requires
        0 < count,
        place < team_size,
    ensures
        exists|i: int| 0 <= i < count && #[trigger] sees(i, count, team_size, place),
{
    vstd::arithmetic::div_mod::lemma_small_mod(place, team_size);
    vstd::arithmetic::div_mod::lemma_mod_bound(place as int, count as int);
    vstd::arithmetic::div_mod::lemma_mod_decreases(place, count);
    let i = place % count;
    vstd::arithmetic::div_mod::lemma_small_mod(i, team_size);
    assert(sees(i as int, count, team_size, place));
}

/// A player without a team sees every choice.
pub proof fn lone_players_see_everything(i: int, count: nat)
    requires
        0 <= i < count,
    ensures
        sees(i, count, 1, 0),
{
    vstd::arithmetic::div_mod::lemma_small_mod(0, count);
}

/// How many of a player's team can be reached, the player alone without one.
pub open spec fn team_size(stage: Stage, id: Id) -> nat {
    match stage.team_manager {
        Some(team_manager) => team_manager.alive_size(id, stage.tunnels@),
        None => 1,
    }
}

/// The place of a player in the team.
pub open spec fn team_index(stage: Stage, id: Id) -> nat {
    match stage.team_manager {
        Some(team_manager) => team_manager.alive_index(id, stage.tunnels@),
        None => 0,
    }
}

/// The choices as a participant sees them.
pub open spec fn shown_to(choices: Seq<AnswerChoice>, id: Id, kind: ValueKind, stage: Stage) -> Seq<
    PossiblyHidden<TextOrMedia>,
> {
    shown(choices, kind, team_size(stage, id), team_index(stage, id), stage.team_manager is Some)
}

// ---- results ----

/// How many answers hold choice `i`.
pub open spec fn choosers(answers: Map<Id, (Vec<usize>, Timestamp)>, i: usize) -> nat {
    answers.dom().filter(|id: Id| answers[id].0@.contains(i)).len()
}

/// The contents of the choices.
pub open spec fn contents(choices: Seq<AnswerChoice>) -> Seq<TextOrMedia> {
    choices.map_values(|choice: AnswerChoice| choice.content)
}

impl State {
    /// Whether `results` tell how the choices fared.
    pub open spec fn is_tally(&self, results: Seq<AnswerChoiceResult>) -> bool {
        &&& results.len() == self.config.answers@.len()
        &&& forall|i: int|
            0 <= i < results.len() ==> {
                &&& (#[trigger] results[i]).correct == self.config.answers@[i].correct
                &&& results[i].count == choosers(self.book.answers(), i as usize)
            }
    }

    fn count_choosers(&self, choice: usize) -> (count: usize)
        ensures
            count == choosers(self.book.answers(), choice),
    {
        let ghost pred = |id: Id| self.book.answers()[id].0@.contains(choice);
        let ids = self.book.ids_of_who_answered();
        let mut count: usize = 0;
        let mut i: usize = 0;
        while i < ids.len()
            invariant
                i <= ids.len(),
                count <= i,
                ids@.to_set() == self.book.answers().dom(),
                pred == (|id: Id| self.book.answers()[id].0@.contains(choice)),
                count == ids@.take(i as int).filter(pred).len(),
            decreases ids.len() - i,
        {
            proof {
                lemma_filter_take(ids@, pred, i as int);
                assert(ids@.to_set().contains(ids@[i as int]));
            }
            match self.book.user_answers.get(ids[i]) {
                Some(entry) => {
                    if contains(&entry.0, choice) {
                        count = count + 1;
                    }
                },
                None => {},
            }
            i = i + 1;
        }
        proof {
            assert(ids@.take(i as int) =~= ids@);
            lemma_count_keys(ids@, self.book.answers().dom(), pred);
        }
        count
    }

    /// How the choices fared.
    pub fn per_index_answer_counts(&self) -> (results: Vec<AnswerChoiceResult>)
        ensures
            self.is_tally(results@),
    {
        let mut results: Vec<AnswerChoiceResult> = Vec::new();
        let mut i: usize = 0;
        while i < self.config.answers.len()
            invariant
                i <= self.config.answers.len(),
                results.len() == i,
                forall|j: int|
                    0 <= j < i ==> {
                        &&& (#[trigger] results[j]).correct == self.config.answers@[j].correct
                        &&& results[j].count == choosers(self.book.answers(), j as usize)
                    },
            decreases self.config.answers.len() - i,
        {
            results.push(
                AnswerChoiceResult { correct: self.config.answers[i].correct, count: self.count_choosers(i) },
            );
            i = i + 1;
        }
        results
    }

    fn choice_contents(&self) -> (list: Vec<TextOrMedia>)
        ensures
            list@ == contents(self.config.answers@),
    {
        let mut list: Vec<TextOrMedia> = Vec::new();
        let mut i: usize = 0;
        while i < self.config.answers.len()
            invariant
                i <= self.config.answers.len(),
                list@ == contents(self.config.answers@.take(i as int)),
            decreases self.config.answers.len() - i,
        {
            list.push(self.config.answers[i].content.clone());
            i = i + 1;
            assert(list@ =~= contents(self.config.answers@.take(i as int)));
        }
        assert(self.config.answers@.take(i as int) =~= self.config.answers@);
        list
    }

    /// The choices as someone sees them.
    pub fn get_answers_for_player(
        &self,
        watcher_kind: ValueKind,
        team_size: usize,
        team_index: usize,
        is_team: bool,
    ) -> (answers: Vec<PossiblyHidden<TextOrMedia>>)
        requires
            watcher_kind == ValueKind::Player && self.config.answers@.len() > 0 ==> 0 < team_size,
        ensures
            answers@ == shown(self.config.answers@, watcher_kind, team_size as nat, team_index as nat, is_team),
    {
        let count: usize = self.config.answers.len();
        let mut answers: Vec<PossiblyHidden<TextOrMedia>> = Vec::new();
        let mut i: usize = 0;
        while i < count
            invariant
                i <= count,
                watcher_kind == ValueKind::Player && count > 0 ==> 0 < team_size,
                count == self.config.answers.len(),
                answers@ == shown(
                    self.config.answers@,
                    watcher_kind,
                    team_size as nat,
                    team_index as nat,
                    is_team,
                ).take(i as int),
            decreases count - i,
        {
            let visible = match watcher_kind {
                ValueKind::Player => i % team_size == (team_index % team_size) % count,
                ValueKind::Host | ValueKind::Unassigned => !is_team,
            };
            if visible {
                answers.push(PossiblyHidden::Visible(self.config.answers[i].content.clone()));
            } else {
                answers.push(PossiblyHidden::Hidden);
            }
            i = i + 1;
            assert(answers@ =~= shown(
                self.config.answers@,
                watcher_kind,
                team_size as nat,
                team_index as nat,
                is_team,
            ).take(i as int));
        }
        assert(answers@ =~= shown(
            self.config.answers@,
            watcher_kind,
            team_size as nat,
            team_index as nat,
            is_team,
        ));
        answers
    }

    fn answers_for(&self, id: Id, kind: ValueKind, stage: &Stage) -> (answers: Vec<PossiblyHidden<TextOrMedia>>)
        ensures
            answers@ == shown_to(self.config.answers@, id, kind, *stage),
    {
        match stage.team_manager {
            Some(team_manager) => self.get_answers_for_player(
                kind,
                team_manager.alive_team_size(id, stage.tunnels),
                team_manager.alive_team_index(id, stage.tunnels),
                true,
            ),
            None => self.get_answers_for_player(kind, 1, 0, false),
        }
    }
}

fn contains(items: &Vec<usize>, item: usize) -> (found: bool)
    ensures
        found == items@.contains(item),
{
    let mut i: usize = 0;
    while i < items.len()
        invariant
            i <= items.len(),
            forall|j: int| 0 <= j < i ==> items@[j] != item,
        decreases items.len() - i,
    {
        if items[i] == item {
            assert(items@[i as int] == item);
            return true;
        }
        i = i + 1;
    }
    false
}

// ---- phases ----

/// A message to everyone.
pub open spec fn told(message: UpdateMessage) -> Effect {
    Effect::Send { to: Audience::Everyone, message: crate::UpdateMessage::MultipleChoice(message) }
}

/// An alarm that moves the slide on.
pub open spec fn scheduled(index: usize, to: SlideState, after: Duration) -> Effect {
    Effect::Schedule { alarm: crate::AlarmMessage::MultipleChoice(AlarmMessage { index, to }), after }
}

impl State {
    /// The announcement of the slide.
    pub open spec fn slide_announced(&self, stage: Stage) -> Effect {
        told(
            UpdateMessage::SlideAnnouncement {
                index: stage.index,
                count: stage.count,
                points_awarded: self.config.points_awarded,
                duration: self.config.introduce_slide,
            },
        )
    }

    /// The announcement of the question.
    pub open spec fn question_announced(&self, stage: Stage) -> Effect {
        told(
            UpdateMessage::QuestionAnnouncement {
                index: stage.index,
                count: stage.count,
                question: self.config.title,
                media: self.config.media,
                duration: self.config.introduce_question,
            },
        )
    }

    /// Whether `effect` shows a participant the choices.
    pub open spec fn answers_announced(&self, effect: Effect, id: Id, kind: ValueKind, stage: Stage) -> bool {
        &&& effect matches Effect::Send {
            to: Audience::One(to),
            message: crate::UpdateMessage::MultipleChoice(
                UpdateMessage::AnswersAnnouncement { duration, answers, answer_mode },
            ),
        }
        &&& to == id
        &&& duration == self.config.time_limit
        &&& answers@ == shown_to(self.config.answers@, id, kind, stage)
        &&& answer_mode == self.config.answer_mode
    }

    /// The slide in another phase.
    pub open spec fn in_phase(&self, state: SlideState) -> State {
        State { core: SlideCore { state, ..self.core }, ..*self }
    }

    /// Whether showing the choices leads from here to `after`: everyone but those without a name sees
    /// them, and the time runs.
    pub open spec fn entered_answers(&self, after: &State, stage: Stage, effects: Seq<Effect>) -> bool {
        if self.core.state != SlideState::Question {
            *after == *self && effects.len() == 0
        } else {
            let ids = stage.watchers.participants(stage.tunnels@);
            &&& *after == State {
                core: SlideCore { state: SlideState::Answers, answer_start: Some(stage.now) },
                ..*self
            }
            &&& effects.len() == ids.len() + if self.config.time_limit is Some { 1int } else { 0int }
            &&& forall|i: int|
                0 <= i < ids.len() ==> self.answers_announced(
                    #[trigger] effects[i],
                    ids[i],
                    stage.watchers.values()[ids[i]].spec_kind(),
                    stage,
                )
            &&& self.config.time_limit is Some ==> effects.last() == scheduled(
                stage.index,
                SlideState::AnswersResults,
                self.config.time_limit->0,
            )
        }
    }

    /// Whether showing the question leads from here to `after`: the choices follow at once, after a
    /// while, or when the host asks for them.
    pub open spec fn entered_question(&self, after: &State, stage: Stage, effects: Seq<Effect>) -> bool {
        if self.core.state != SlideState::Unstarted {
            *after == *self && effects.len() == 0
        } else {
            let asked = self.in_phase(SlideState::Question);
            &&& effects.len() > 0
            &&& effects[0] == self.question_announced(stage)
            &&& match self.config.introduce_question {
                None => *after == asked && effects.len() == 1,
                Some(time) => if nanos(time) == 0 {
                    asked.entered_answers(after, stage, effects.skip(1))
                } else {
                    *after == asked && effects == seq![
                        self.question_announced(stage),
                        scheduled(stage.index, SlideState::Answers, time),
                    ]
                },
            }
        }
    }

    /// Whether announcing the slide leads from here to `after`: the question follows at once, after a
    /// while, or when the host asks for it.
    pub open spec fn announced(&self, after: &State, stage: Stage, effects: Seq<Effect>) -> bool {
        &&& effects.len() > 0
        &&& effects[0] == self.slide_announced(stage)
        &&& match self.config.introduce_slide {
            None => *after == *self && effects.len() == 1,
            Some(time) => if nanos(time) == 0 {
                self.entered_question(after, stage, effects.skip(1))
            } else {
                *after == *self && effects == seq![
                    self.slide_announced(stage),
                    scheduled(stage.index, SlideState::Question, time),
                ]
            },
        }
    }

    fn enter_answers(&mut self, stage: &Stage) -> (effects: Vec<Effect>)
        requires
            old(self).wf(),
            stage.wf(),
        ensures
            final(self).wf(),
            old(self).entered_answers(final(self), *stage, effects@),
    {
        let mut effects: Vec<Effect> = Vec::new();
        if !self.core.change_state(SlideState::Question, SlideState::Answers) {
            return effects;
        }
        self.core.start_timer(stage.now);
        let ghost entered = *self;
        let ids = stage.watchers.participants_vec(stage.tunnels);
        let mut i: usize = 0;
        while i < ids.len()
            invariant
                i <= ids.len(),
                stage.wf(),
                *self == entered,
                self.config == old(self).config,
                ids@ == stage.watchers.participants(stage.tunnels@),
                forall|j: int| 0 <= j < ids.len() ==> stage.watchers.values().contains_key(#[trigger] ids[j]),
                effects.len() == i,
                forall|j: int|
                    0 <= j < i ==> old(self).answers_announced(
                        #[trigger] effects[j],
                        ids[j],
                        stage.watchers.values()[ids[j]].spec_kind(),
                        *stage,
                    ),
            decreases ids.len() - i,
        {
            let id = ids[i];
            let kind = stage.watchers.kind_of(id);
            effects.push(
                Effect::Send {
                    to: Audience::One(id),
                    message: crate::UpdateMessage::MultipleChoice(
                        UpdateMessage::AnswersAnnouncement {
                            duration: self.config.time_limit,
                            answers: self.answers_for(id, kind, stage),
                            answer_mode: self.config.answer_mode,
                        },
                    ),
                },
            );
            i = i + 1;
        }
        if let Some(time_limit) = self.config.time_limit {
            effects.push(
                Effect::Schedule {
                    alarm: crate::AlarmMessage::MultipleChoice(
                        AlarmMessage { index: stage.index, to: SlideState::AnswersResults },
                    ),
                    after: time_limit,
                },
            );
        }
        effects
    }

    fn enter_question(&mut self, stage: &Stage) -> (effects: Vec<Effect>)
        requires
            old(self).wf(),
            stage.wf(),
        ensures
            final(self).wf(),
            old(self).entered_question(final(self), *stage, effects@),
    {
        let mut effects: Vec<Effect> = Vec::new();
        if !self.core.change_state(SlideState::Unstarted, SlideState::Question) {
            return effects;
        }
        assert(*self == old(self).in_phase(SlideState::Question));
        effects.push(
            Effect::Send {
                to: Audience::Everyone,
                message: crate::UpdateMessage::MultipleChoice(
                    UpdateMessage::QuestionAnnouncement {
                        index: stage.index,
                        count: stage.count,
                        question: self.config.title.clone(),
                        media: copy_media(&self.config.media),
                        duration: self.config.introduce_question,
                    },
                ),
            },
        );
        if let Some(time) = self.config.introduce_question {
            if is_zero(&time) {
                let mut rest = self.enter_answers(stage);
                let ghost more = rest@;
                effects.append(&mut rest);
                assert(effects@.skip(1) =~= more);
            } else {
                effects.push(
                    Effect::Schedule {
                        alarm: crate::AlarmMessage::MultipleChoice(
                            AlarmMessage { index: stage.index, to: SlideState::Answers },
                        ),
                        after: time,
                    },
                );
                assert(effects@ =~= seq![
                    old(self).question_announced(*stage),
                    scheduled(stage.index, SlideState::Answers, time),
                ]);
            }
        }
        effects
    }

    fn announce_slide(&mut self, stage: &Stage) -> (effects: Vec<Effect>)
        requires
            old(self).wf(),
            stage.wf(),
        ensures
            final(self).wf(),
            old(self).announced(final(self), *stage, effects@),
    {
        let mut effects: Vec<Effect> = Vec::new();
        effects.push(
            Effect::Send {
                to: Audience::Everyone,
                message: crate::UpdateMessage::MultipleChoice(
                    UpdateMessage::SlideAnnouncement {
                        index: stage.index,
                        count: stage.count,
                        points_awarded: self.config.points_awarded,
                        duration: self.config.introduce_slide,
                    },
                ),
            },
        );
        if let Some(time) = self.config.introduce_slide {
            if is_zero(&time) {
                let mut rest = self.enter_question(stage);
                let ghost more = rest@;
                effects.append(&mut rest);
                assert(effects@.skip(1) =~= more);
            } else {
                effects.push(
                    Effect::Schedule {
                        alarm: crate::AlarmMessage::MultipleChoice(
                            AlarmMessage { index: stage.index, to: SlideState::Question },
                        ),
                        after: time,
                    },
                );
                assert(effects@ =~= seq![
                    old(self).slide_announced(*stage),
                    scheduled(stage.index, SlideState::Question, time),
                ]);
            }
        }
        effects
    }

    /// Starts the slide.
    pub fn play(&mut self, stage: &Stage) -> (effects: Vec<Effect>)
        requires
            old(self).wf(),
            stage.wf(),
        ensures
            final(self).wf(),
            old(self).announced(final(self), *stage, effects@),
    {
        self.enter_phase(SlideState::Unstarted, stage)
    }

    /// Whether `effect` shows everyone how the choices fared.
    pub open spec fn results_announced(&self, effect: Effect) -> bool {
        &&& effect matches Effect::Send {
            to: Audience::Everyone,
            message: crate::UpdateMessage::MultipleChoice(UpdateMessage::AnswersResults { answers, results }),
        }
        &&& answers@ == contents(self.config.answers@)
        &&& self.is_tally(results@)
    }
}

impl PhasedSlide<Vec<usize>> for State {
    open spec fn entered(&self, after: &Self, phase: SlideState, stage: Stage, effects: Seq<Effect>) -> bool {
        match phase {
            SlideState::Unstarted => self.announced(after, stage, effects),
            SlideState::Question => self.entered_question(after, stage, effects),
            SlideState::Answers => self.entered_answers(after, stage, effects),
            SlideState::AnswersResults => self.results_sent(after, effects),
        }
    }

    open spec fn results_sent(&self, after: &Self, effects: Seq<Effect>) -> bool {
        if self.core.state != SlideState::Answers {
            *after == *self && effects.len() == 0
        } else {
            &&& *after == self.in_phase(SlideState::AnswersResults)
            &&& effects.len() == 1
            &&& self.results_announced(effects[0])
        }
    }

    open spec fn spec_answers_count_message(count: usize) -> crate::UpdateMessage {
        crate::UpdateMessage::MultipleChoice(UpdateMessage::AnswersCount(count))
    }

    fn answers_count_message(count: usize) -> (message: crate::UpdateMessage) {
        crate::UpdateMessage::MultipleChoice(UpdateMessage::AnswersCount(count))
    }

    fn send_answers_results(&mut self) -> (effects: Vec<Effect>) {
        let mut effects: Vec<Effect> = Vec::new();
        if self.core.change_state(SlideState::Answers, SlideState::AnswersResults) {
            effects.push(
                Effect::Send {
                    to: Audience::Everyone,
                    message: crate::UpdateMessage::MultipleChoice(
                        UpdateMessage::AnswersResults {
                            answers: self.choice_contents(),
                            results: self.per_index_answer_counts(),
                        },
                    ),
                },
            );
        }
        effects
    }

    fn enter_phase(&mut self, phase: SlideState, stage: &Stage) -> (effects: Vec<Effect>) {
        match phase {
            SlideState::Unstarted => self.announce_slide(stage),
            SlideState::Question => self.enter_question(stage),
            SlideState::Answers => self.enter_answers(stage),
            SlideState::AnswersResults => self.send_answers_results(),
        }
    }
}

// ---- answers ----

/// The choices that a message holds, if it is an answer to a question with so many choices: one
/// choice, or one or more without repetitions.
pub open spec fn accepted(mode: AnswerMode, count: nat, message: IncomingPlayerMessage) -> Option<Seq<usize>> {
    match (mode, message) {
        (AnswerMode::SingleAnswer, IncomingPlayerMessage::IndexAnswer(i)) => if i < count {
            Some(seq![i])
        } else {
            None
        },
        (AnswerMode::MultipleAnswers, IncomingPlayerMessage::IndexArrayAnswer(picks)) => if picks@.len() > 0
            && picks@.no_duplicates() && (forall|j: int| 0 <= j < picks@.len() ==> #[trigger] picks@[j] < count) {
            Some(picks@)
        } else {
            None
        },
        _ => None,
    }
}

fn all_distinct(items: &Vec<usize>) -> (distinct: bool)
    ensures
        distinct == items@.no_duplicates(),
{
    let mut i: usize = 0;
    while i < items.len()
        invariant
            i <= items.len(),
            forall|a: int, b: int| 0 <= a < b < i ==> items@[a] != items@[b],
        decreases items.len() - i,
    {
        let mut j: usize = 0;
        while j < i
            invariant
                j <= i,
                i < items.len(),
                forall|a: int| 0 <= a < j ==> items@[a] != items@[i as int],
            decreases i - j,
        {
            if items[j] == items[i] {
                return false;
            }
            j = j + 1;
        }
        i = i + 1;
    }
    true
}

impl State {
    /// Whether no answer holds a choice twice.
    pub fn is_sound(&self) -> (sound: bool)
        ensures
            sound == self.wf(),
    {
        let ids = self.book.ids_of_who_answered();
        let mut i: usize = 0;
        while i < ids.len()
            invariant
                i <= ids.len(),
                ids@.to_set() == self.book.answers().dom(),
                forall|j: int| 0 <= j < i ==> self.book.answers()[#[trigger] ids@[j]].0@.no_duplicates(),
            decreases ids.len() - i,
        {
            assert(ids@.to_set().contains(ids@[i as int]));
            if let Some(entry) = self.book.user_answers.get(ids[i]) {
                if !all_distinct(&entry.0) {
                    return false;
                }
            }
            i = i + 1;
        }
        proof {
            assert forall|id: Id| #[trigger] self.book.answers().contains_key(id) implies self.book.answers()[id].0@.no_duplicates() by {
                assert(ids@.to_set().contains(id));
                let j = choose|j: int| 0 <= j < ids@.len() && ids@[j] == id;
                assert(self.book.answers()[ids@[j]].0@.no_duplicates());
            }
        }
        true
    }
}

fn all_below(items: &Vec<usize>, limit: usize) -> (below: bool)
    ensures
        below <==> forall|j: int| 0 <= j < items@.len() ==> #[trigger] items@[j] < limit,
{
    let mut i: usize = 0;
    while i < items.len()
        invariant
            i <= items.len(),
            forall|j: int| 0 <= j < i ==> #[trigger] items@[j] < limit,
        decreases items.len() - i,
    {
        if items[i] >= limit {
            assert(items@[i as int] >= limit);
            return false;
        }
        i = i + 1;
    }
    true
}

impl QuestionReceiveMessage<Vec<usize>> for State {
    open spec fn answered(
        &self,
        after: &Self,
        watcher_id: Id,
        message: IncomingPlayerMessage,
        stage: Stage,
        effects: Seq<Effect>,
    ) -> bool {
        match accepted(self.config.answer_mode, self.config.answers@.len(), message) {
            None => *after == *self && effects.len() == 0,
            Some(picks) => exists|recorded: State, answer: Vec<usize>| {
                &&& answer@ == picks
                &&& #[trigger] self.recorded(recorded, watcher_id, answer, stage.now)
                &&& answer_followed_up(recorded, *after, stage, effects)
            },
        }
    }

    fn receive_player_message(&mut self, watcher_id: Id, message: IncomingPlayerMessage, stage: &Stage) -> (effects: Vec<
        Effect,
    >) {
        let count: usize = self.config.answers.len();
        let ghost picks = accepted(self.config.answer_mode, count as nat, message);
        let answer = match (self.config.answer_mode, message) {
            (AnswerMode::SingleAnswer, IncomingPlayerMessage::IndexAnswer(i)) => if i < count {
                let mut answer: Vec<usize> = Vec::new();
                answer.push(i);
                assert(answer@ =~= seq![i]);
                Some(answer)
            } else {
                None
            },
            (AnswerMode::MultipleAnswers, IncomingPlayerMessage::IndexArrayAnswer(picks)) => if picks.len() > 0
                && all_below(&picks, count) && all_distinct(&picks) {
                Some(picks)
            } else {
                None
            },
            _ => None,
        };
        match answer {
            None => Vec::new(),
            Some(answer) => {
                assert(picks == Some(answer@));
                self.book.record_answer(watcher_id, answer, stage.now);
                let ghost recorded = *self;
                assert(old(self).recorded(recorded, watcher_id, answer, stage.now));
                assert(self.wf()) by {
                    assert forall|id: Id| #[trigger]
                        self.book.answers().contains_key(id) implies self.book.answers()[id].0@.no_duplicates() by {
                        if id != watcher_id {
                            assert(old(self).book.answers().contains_key(id));
                        }
                    }
                }
                handle_post_answer::<Vec<usize>, State>(self, stage)
            },
        }
    }
}

impl State {
    /// Whether `after` is this slide with one more answer.
    pub open spec fn recorded(&self, after: State, id: Id, answer: Vec<usize>, now: Timestamp) -> bool {
        &&& after.config == self.config
        &&& after.core == self.core
        &&& after.book.answers() == self.book.answers().insert(id, (answer, now))
        &&& after.book.live_answered_count == if self.book.answers().contains_key(id) {
            self.book.live_answered_count as int
        } else {
            self.book.live_answered_count + 1
        }
    }

    /// Whether `message` tells a participant how things stand.
    pub open spec fn is_state_message(&self, id: Id, kind: ValueKind, stage: Stage, message: SyncMessage) -> bool {
        match self.core.state {
            SlideState::Unstarted => message == SyncMessage::SlideAnnouncement {
                index: stage.index,
                count: stage.count,
                points_awarded: self.config.points_awarded,
                duration: self.config.introduce_slide,
            },
            SlideState::Question => {
                &&& message matches SyncMessage::QuestionAnnouncement { index, count, question, media, duration }
                &&& index == stage.index
                &&& count == stage.count
                &&& question == self.config.title
                &&& media == self.config.media
                &&& self.core.is_left(self.config.introduce_question, stage.now, duration)
            },
            SlideState::Answers => {
                &&& message matches SyncMessage::AnswersAnnouncement {
                    index,
                    count,
                    question,
                    media,
                    duration,
                    answers,
                    answered_count,
                    answer_mode,
                }
                &&& index == stage.index
                &&& count == stage.count
                &&& question == self.config.title
                &&& media == self.config.media
                &&& self.core.is_left(self.config.time_limit, stage.now, duration)
                &&& answers@ == shown_to(self.config.answers@, id, kind, stage)
                &&& answered_count == self.book.live_answered_count
                &&& answer_mode == self.config.answer_mode
            },
            SlideState::AnswersResults => {
                &&& message matches SyncMessage::AnswersResults { index, count, question, media, answers, results }
                &&& index == stage.index
                &&& count == stage.count
                &&& question == self.config.title
                &&& media == self.config.media
                &&& answers@ == contents(self.config.answers@)
                &&& self.is_tally(results@)
            },
        }
    }

    /// Tells a participant how things stand.
    pub fn state_message(&self, watcher_id: Id, watcher_kind: ValueKind, stage: &Stage) -> (message: SyncMessage)
        ensures
            self.is_state_message(watcher_id, watcher_kind, *stage, message),
    {
        match self.core.state() {
            SlideState::Unstarted => SyncMessage::SlideAnnouncement {
                index: stage.index,
                count: stage.count,
                points_awarded: self.config.points_awarded,
                duration: self.config.introduce_slide,
            },
            SlideState::Question => SyncMessage::QuestionAnnouncement {
                index: stage.index,
                count: stage.count,
                question: self.config.title.clone(),
                media: copy_media(&self.config.media),
                duration: self.core.time_left(self.config.introduce_question, stage.now),
            },
            SlideState::Answers => SyncMessage::AnswersAnnouncement {
                index: stage.index,
                count: stage.count,
                question: self.config.title.clone(),
                media: copy_media(&self.config.media),
                duration: self.core.time_left(self.config.time_limit, stage.now),
                answers: self.answers_for(watcher_id, watcher_kind, stage),
                answered_count: self.book.live_answered_count,
                answer_mode: self.config.answer_mode,
            },
            SlideState::AnswersResults => SyncMessage::AnswersResults {
                index: stage.index,
                count: stage.count,
                question: self.config.title.clone(),
                media: copy_media(&self.config.media),
                answers: self.choice_contents(),
                results: self.per_index_answer_counts(),
            },
        }
    }

    /// Takes an alarm; those of other kinds of slides do not matter.
    pub fn receive_alarm(&mut self, message: &crate::AlarmMessage, stage: &Stage) -> (result: (SlideAction, Vec<Effect>))
        requires
            old(self).wf(),
            stage.wf(),
        ensures
            final(self).wf(),
            result.0 == SlideAction::Stay,
            match *message {
                crate::AlarmMessage::MultipleChoice(alarm) => old(self).entered(
                    final(self),
                    alarm.to,
                    *stage,
                    result.1@,
                ),
                _ => *final(self) == *old(self) && result.1@.len() == 0,
            },
    {
        match message {
            crate::AlarmMessage::MultipleChoice(alarm) => default_receive_alarm::<Vec<usize>, State>(self, alarm.to, stage),
            _ => (SlideAction::Stay, Vec::new()),
        }
    }
}

/// Only the next phase can be entered: asking for any other one does nothing, so an alarm that comes
/// too late, or twice, does nothing.
pub proof fn only_the_next_phase_is_entered(
    before: State,
    after: State,
    phase: SlideState,
    stage: Stage,
    effects: Seq<Effect>,
)
    requires
        before.entered(&after, phase, stage, effects),
        before.core.state.spec_next() != Some(phase),
        phase != SlideState::Unstarted,
    ensures
        after == before,
        effects.len() == 0,
{
}

/// Entering the next phase brings the slide closer to its end, and never past the phase in which
/// answers are taken.
pub proof fn phases_lead_on(before: State, after: State, phase: SlideState, stage: Stage, effects: Seq<Effect>)
    requires
        before.entered(&after, phase, stage, effects),
        before.core.state.spec_next() == Some(phase),
    ensures
        after.core.state.steps_left() < before.core.state.steps_left(),
        phase != SlideState::AnswersResults ==> after.core.state.steps_left() >= 1,
        after.config == before.config,
        after.book == before.book,
{
}

/// Answers of players change the phase only to show the results, once everyone has answered.
pub proof fn answers_only_bring_results(
    before: State,
    after: State,
    watcher_id: Id,
    message: IncomingPlayerMessage,
    stage: Stage,
    effects: Seq<Effect>,
)
    requires
        before.answered(&after, watcher_id, message, stage, effects),
    ensures
        after.core.state == before.core.state || (before.core.state == SlideState::Answers && after.core.state
            == SlideState::AnswersResults),
        after.config == before.config,
{
}

// ---- what players can count on ----

/// A pick counts as correct where there is such a choice and it is correct.
pub proof fn correct_picks_are_counted(choices: Seq<AnswerChoice>, answer: Seq<usize>, pick: usize)
    ensures
        correct_picked(choices, Seq::<usize>::empty()) == 0,
        pick < choices.len() && choices[pick as int].correct ==> correct_picked(choices, answer.push(pick))
            == correct_picked(choices, answer) + 1,
        !(pick < choices.len() && choices[pick as int].correct) ==> correct_picked(choices, answer.push(pick))
            == correct_picked(choices, answer),
{
    reveal(Seq::filter);
    assert(answer.push(pick).drop_last() =~= answer);
}

/// The correct choices of a question are counted one by one.
pub proof fn correct_choices_are_counted(choices: Seq<AnswerChoice>, choice: AnswerChoice)
    ensures
        total_correct(Seq::<AnswerChoice>::empty()) == 0,
        choice.correct ==> total_correct(choices.push(choice)) == total_correct(choices) + 1,
        !choice.correct ==> total_correct(choices.push(choice)) == total_correct(choices),
{
    reveal(Seq::filter);
    assert(choices.push(choice).drop_last() =~= choices);
}

proof fn lemma_total_positive(choices: Seq<AnswerChoice>, at: int)
    requires
        0 <= at < choices.len(),
        choices[at].correct,
    ensures
        total_correct(choices) > 0,
    decreases choices.len(),
{
    lemma_total_step(choices);
    if at < choices.len() - 1 {
        lemma_total_positive(choices.drop_last(), at);
    }
}

/// One more correct pick earns one part more, unless there are still more wrong picks than correct ones;
/// one more wrong pick costs one part, down to none; nothing is earned without picks; and the whole is
/// made of as many parts as there are correct choices.
pub proof fn every_pick_counts(choices: Seq<AnswerChoice>, answer: Seq<usize>, pick: usize, correct: int)
    requires
        choices.len() <= usize::MAX,
        answer.push(pick).no_duplicates(),
        0 <= correct < choices.len(),
        choices[correct].correct,
    ensures
        partial_credit(choices, Seq::<usize>::empty()).numerator == 0,
        partial_credit(choices, answer).denominator == total_correct(choices),
        ({
            let before = partial_credit(choices, answer).numerator;
            let after = partial_credit(choices, answer.push(pick)).numerator;
            if pick < choices.len() && choices[pick as int].correct {
                &&& 2 * correct_picked(choices, answer) >= answer.len() ==> after == before + 1
                &&& 2 * correct_picked(choices, answer) < answer.len() ==> before == 0 && after == 0
            } else {
                &&& before > 0 ==> after == before - 1
                &&& before == 0 ==> after == 0
            }
        }),
{
    lemma_total_positive(choices, correct);
    assert(answer.no_duplicates()) by {
        assert(forall|i: int| 0 <= i < answer.len() ==> answer[i] == answer.push(pick)[i]);
    }
    assert(Seq::<usize>::empty().no_duplicates());
    partial_credit_is_a_part(choices, answer);
    partial_credit_is_a_part(choices, answer.push(pick));
    partial_credit_is_a_part(choices, Seq::<usize>::empty());
    correct_picks_are_counted(choices, answer, pick);
}

proof fn lemma_all_picked(choices: Seq<AnswerChoice>, answer: Seq<usize>)
    requires
        choices.len() <= usize::MAX,
        answer.no_duplicates(),
        forall|i: usize| i < choices.len() && (#[trigger] choices[i as int]).correct ==> answer.contains(i),
    ensures
        total_correct(choices) <= answer.len(),
    decreases choices.len(),
{
    if choices.len() > 0 {
        lemma_total_step(choices);
        let last = (choices.len() - 1) as usize;
        let rest = choices.drop_last();
        if choices.last().correct {
            assert(choices[last as int].correct);
            assert(answer.contains(last));
            let j = choose|j: int| 0 <= j < answer.len() && answer[j] == last;
            let others = answer.remove(j);
            assert forall|k: int, m: int| 0 <= k < others.len() && 0 <= m < others.len() && k != m implies others[k]
                != others[m] by {
                let a = if k < j { k } else { k + 1 };
                let b = if m < j { m } else { m + 1 };
                assert(others[k] == answer[a] && others[m] == answer[b]);
            }
            assert forall|i: usize| i < rest.len() && (#[trigger] rest[i as int]).correct implies others.contains(
                i,
            ) by {
                assert(choices[i as int].correct);
                let k = choose|k: int| 0 <= k < answer.len() && answer[k] == i;
                assert(others[if k < j { k } else { k - 1 }] == i);
            }
            lemma_all_picked(rest, others);
        } else {
            assert forall|i: usize| i < rest.len() && (#[trigger] rest[i as int]).correct implies answer.contains(
                i,
            ) by {
                assert(choices[i as int].correct);
            }
            lemma_all_picked(rest, answer);
        }
    } else {
        reveal(Seq::filter);
    }
}

proof fn lemma_wrong_pick(choices: Seq<AnswerChoice>, answer: Seq<usize>, at: int)
    requires
        0 <= at < answer.len(),
        !is_correct_choice(choices, answer[at]),
    ensures
        correct_picked(choices, answer) < answer.len(),
    decreases answer.len(),
{
    let pred = |i: usize| is_correct_choice(choices, i);
    let rest = answer.drop_last();
    correct_picks_are_counted(choices, rest, answer.last());
    assert(rest.push(answer.last()) =~= answer);
    rest.lemma_filter_len(pred);
    if at < answer.len() - 1 {
        lemma_wrong_pick(choices, rest, at);
    }
}

proof fn lemma_right_picks(choices: Seq<AnswerChoice>, answer: Seq<usize>)
    requires
        forall|j: int| 0 <= j < answer.len() ==> is_correct_choice(choices, #[trigger] answer[j]),
    ensures
        correct_picked(choices, answer) == answer.len(),
    decreases answer.len(),
{
    if answer.len() == 0 {
        reveal(Seq::filter);
    } else {
        let rest = answer.drop_last();
        correct_picks_are_counted(choices, rest, answer.last());
        assert(rest.push(answer.last()) =~= answer);
        assert(is_correct_choice(choices, answer[answer.len() - 1]));
        assert forall|j: int| 0 <= j < rest.len() implies is_correct_choice(choices, #[trigger] rest[j]) by {
            assert(rest[j] == answer[j]);
        }
        lemma_right_picks(choices, rest);
    }
}

/// The whole is earned by picking every correct choice and no other, and by nothing else.
pub proof fn only_the_correct_picks_are_whole(choices: Seq<AnswerChoice>, answer: Seq<usize>, correct: int)
    requires
        choices.len() <= usize::MAX,
        answer.no_duplicates(),
        0 <= correct < choices.len(),
        choices[correct].correct,
    ensures
        partial_credit(choices, answer).numerator == partial_credit(choices, answer).denominator <==> forall|i: usize| #[trigger]
            answer.contains(i) <==> i < choices.len() && choices[i as int].correct,
{
    lemma_total_positive(choices, correct);
    partial_credit_is_a_part(choices, answer);
    if forall|i: usize| #[trigger] answer.contains(i) <==> i < choices.len() && choices[i as int].correct {
        assert forall|j: int| 0 <= j < answer.len() implies is_correct_choice(choices, #[trigger] answer[j]) by {
            assert(answer.contains(answer[j]));
        }
        lemma_right_picks(choices, answer);
        lemma_all_picked(choices, answer);
    }
    if partial_credit(choices, answer).numerator == partial_credit(choices, answer).denominator {
        assert forall|i: usize| #[trigger] answer.contains(i) <==> i < choices.len() && choices[i as int].correct by {
            if answer.contains(i) {
                let at = choose|at: int| 0 <= at < answer.len() && answer[at] == i;
                if !is_correct_choice(choices, i) {
                    lemma_wrong_pick(choices, answer, at);
                }
            } else if is_correct_choice(choices, i) {
                let more = answer.push(i);
                assert forall|a: int, b: int| 0 <= a < more.len() && 0 <= b < more.len() && a != b implies more[a]
                    != more[b] by {
                    if a == answer.len() {
                        assert(answer.contains(answer[b]));
                    } else if b == answer.len() {
                        assert(answer.contains(answer[a]));
                    }
                }
                partial_credit_is_a_part(choices, more);
                correct_picks_are_counted(choices, answer, i);
            }
        }
    }
}

/// Without a correct choice nothing can be earned.
pub proof fn nothing_is_earned_without_a_correct_choice(choices: Seq<AnswerChoice>, answer: Seq<usize>)
    requires
        forall|i: int| 0 <= i < choices.len() ==> !(#[trigger] choices[i]).correct,
    ensures
        partial_credit(choices, answer).numerator == 0,
        partial_credit(choices, answer).denominator == 1,
{
    lemma_none_correct(choices);
}

proof fn lemma_none_correct(choices: Seq<AnswerChoice>)
    requires
        forall|i: int| 0 <= i < choices.len() ==> !(#[trigger] choices[i]).correct,
    ensures
        total_correct(choices) == 0,
    decreases choices.len(),
{
    if choices.len() == 0 {
        reveal(Seq::filter);
    } else {
        lemma_total_step(choices);
        lemma_none_correct(choices.drop_last());
    }
}

/// Where one choice is asked for, a single correct one earns everything and all else nothing; where several
/// are, they earn their part; and an answer is correct exactly where it earns something.
pub proof fn answers_are_judged(slide: State, answer: Vec<usize>)
    requires
        answer@.no_duplicates(),
    ensures
        slide.is_correct(answer) <==> slide.multiplier(answer).numerator > 0,
        slide.config.answer_mode == AnswerMode::SingleAnswer ==> {
            &&& slide.multiplier(answer).denominator == 1
            &&& slide.multiplier(answer).numerator == 1 <==> answer@.len() == 1 && answer@[0]
                < slide.config.answers@.len() && slide.config.answers@[answer@[0] as int].correct
            &&& slide.multiplier(answer).numerator <= 1
        },
        slide.config.answer_mode == AnswerMode::MultipleAnswers ==> slide.multiplier(answer) == partial_credit(
            slide.config.answers@,
            answer@,
        ),
        slide.full_points() == slide.config.points_awarded,
        slide.window() == slide.config.time_limit,
{
    assert(slide.config.answers@.len() == slide.config.answers.len());
    partial_credit_is_a_part(slide.config.answers@, answer@);
}

/// Members of a team that is no larger than the number of choices see every so many choices, from their
/// own place on.
pub proof fn choices_go_round_the_team(i: nat, count: nat, team_size: nat, place: nat)
    requires
        place < team_size <= count,
    ensures
        sees(place as int, count, team_size, place),
        i < team_size && i != place ==> !sees(i as int, count, team_size, place),
        sees((i + team_size) as int, count, team_size, place) <==> sees(i as int, count, team_size, place),
{
    vstd::arithmetic::div_mod::lemma_small_mod(place, team_size);
    vstd::arithmetic::div_mod::lemma_small_mod(place, count);
    if i < team_size {
        vstd::arithmetic::div_mod::lemma_small_mod(i, team_size);
    }
    vstd::arithmetic::div_mod::lemma_mod_add_multiples_vanish(i as int, team_size as int);
}

/// Members of a team that is larger than the number of choices see one choice each, in turn.
pub proof fn large_teams_go_round_the_choices(i: nat, count: nat, team_size: nat, place: nat)
    requires
        0 < count < team_size,
        i < count,
        place < team_size,
    ensures
        place < count ==> (sees(i as int, count, team_size, place) <==> i == place),
        place >= count ==> (sees(i as int, count, team_size, place) <==> sees(
            i as int,
            count,
            team_size,
            (place - count) as nat,
        )),
{
    vstd::arithmetic::div_mod::lemma_small_mod(i, team_size);
    vstd::arithmetic::div_mod::lemma_small_mod(place, team_size);
    if place < count {
        vstd::arithmetic::div_mod::lemma_small_mod(place, count);
    } else {
        let less = (place - count) as nat;
        vstd::arithmetic::div_mod::lemma_small_mod(less, team_size);
        vstd::arithmetic::div_mod::lemma_mod_add_multiples_vanish(less as int, count as int);
    }
}

/// A choice is shown as it is or not at all: to players those of their place in the team, all of them
/// without teams; to the host all of them without teams, and none with teams.
pub proof fn choices_are_shown_or_hidden(choices: Seq<AnswerChoice>, id: Id, kind: ValueKind, stage: Stage, i: int)
    requires
        0 <= i < choices.len(),
    ensures
        shown_to(choices, id, kind, stage).len() == choices.len(),
        shown_to(choices, id, kind, stage)[i] is Visible ==> shown_to(choices, id, kind, stage)[i]
            == PossiblyHidden::Visible(choices[i].content),
        stage.team_manager is None ==> shown_to(choices, id, kind, stage)[i] is Visible,
        stage.team_manager is Some && kind != ValueKind::Player ==> shown_to(choices, id, kind, stage)[i] is Hidden,
        stage.team_manager is Some && kind == ValueKind::Player ==> (shown_to(choices, id, kind, stage)[i] is Visible
            <==> sees(
            i,
            choices.len(),
            stage.team_manager->0.alive_size(id, stage.tunnels@),
            stage.team_manager->0.alive_index(id, stage.tunnels@),
        )),
{
    lone_players_see_everything(i, choices.len());
}

/// Everyone whose answer holds a choice is counted for it once, and nobody else.
pub proof fn choosers_are_counted(answers: Map<Id, (Vec<usize>, Timestamp)>, id: Id, entry: (Vec<usize>, Timestamp), i: usize)
    requires
        answers.dom().finite(),
        !answers.contains_key(id),
    ensures
        choosers(Map::<Id, (Vec<usize>, Timestamp)>::empty(), i) == 0,
        entry.0@.contains(i) ==> choosers(answers.insert(id, entry), i) == choosers(answers, i) + 1,
        !entry.0@.contains(i) ==> choosers(answers.insert(id, entry), i) == choosers(answers, i),
{
    let none = Map::<Id, (Vec<usize>, Timestamp)>::empty();
    assert(none.dom().filter(|id: Id| none[id].0@.contains(i)) =~= Set::empty());
    let more = answers.insert(id, entry);
    let before = answers.dom().filter(|id: Id| answers[id].0@.contains(i));
    let after = more.dom().filter(|id: Id| more[id].0@.contains(i));
    assert(before.finite());
    if entry.0@.contains(i) {
        assert(after =~= before.insert(id));
    } else {
        assert(after =~= before);
    }
}

/// Whether a message holds an answer: one choice where one is asked for, and one or more of them, none
/// twice, where several are.
pub open spec fn is_an_answer(config: SlideConfig, message: IncomingPlayerMessage) -> bool {
    match message {
        IncomingPlayerMessage::IndexAnswer(i) => config.answer_mode == AnswerMode::SingleAnswer && i
            < config.answers@.len(),
        IncomingPlayerMessage::IndexArrayAnswer(picks) => {
            &&& config.answer_mode == AnswerMode::MultipleAnswers
            &&& picks@.len() > 0
            &&& forall|j: int| 0 <= j < picks@.len() ==> #[trigger] picks@[j] < config.answers@.len()
            &&& forall|j: int, k: int| 0 <= j < k < picks@.len() ==> picks@[j] != picks@[k]
        },
        _ => false,
    }
}

/// An answer is noted with its time, in place of an earlier one, and counted once; nothing else happens to
/// the answers, and what is no answer changes nothing.
pub proof fn answers_are_noted(
    before: State,
    after: State,
    watcher_id: Id,
    message: IncomingPlayerMessage,
    stage: Stage,
    effects: Seq<Effect>,
)
    requires
        before.answered(&after, watcher_id, message, stage, effects),
    ensures
        after.config == before.config,
        !is_an_answer(before.config, message) ==> after == before && effects.len() == 0,
        is_an_answer(before.config, message) ==> {
            &&& after.book.answers().contains_key(watcher_id)
            &&& after.book.answers()[watcher_id].1 == stage.now
            &&& message matches IncomingPlayerMessage::IndexAnswer(i) ==> after.book.answers()[watcher_id].0@.len() == 1
                && after.book.answers()[watcher_id].0@[0] == i
            &&& message matches IncomingPlayerMessage::IndexArrayAnswer(picks) ==> after.book.answers()[watcher_id].0@
                == picks@
            &&& forall|other: Id|
                other != watcher_id ==> (#[trigger] after.book.answers().contains_key(other)
                    <==> before.book.answers().contains_key(other))
            &&& forall|other: Id|
                other != watcher_id && before.book.answers().contains_key(other)
                    ==> #[trigger] after.book.answers()[other] == before.book.answers()[other]
            &&& before.book.answers().contains_key(watcher_id) ==> after.book.live_answered_count
                == before.book.live_answered_count
            &&& !before.book.answers().contains_key(watcher_id) ==> after.book.live_answered_count
                == before.book.live_answered_count + 1
        },
{
    if let IncomingPlayerMessage::IndexArrayAnswer(picks) = message {
        if is_an_answer(before.config, message) {
            assert(picks@.no_duplicates());
        }
    }
}

/// The results are shown early exactly where everyone present has answered; until then the host may hear
/// how many have.
pub proof fn the_last_answer_brings_the_results(
    before: State,
    after: State,
    watcher_id: Id,
    message: IncomingPlayerMessage,
    stage: Stage,
    effects: Seq<Effect>,
)
    requires
        before.answered(&after, watcher_id, message, stage, effects),
        is_an_answer(before.config, message),
    ensures
        after.core.answer_start == before.core.answer_start,
        before.core.state != SlideState::Answers ==> after.core.state == before.core.state,
        ({
            let answered = after.book.live_answered_count;
            let players = stage.watchers.present(ValueKind::Player).len();
            &&& before.core.state == SlideState::Answers ==> (after.core.state == SlideState::AnswersResults <==> players
                > 0 && answered >= players)
            &&& before.core.state == SlideState::Answers && after.core.state == SlideState::AnswersResults ==> {
                &&& effects.len() == 1
                &&& effects[0] matches Effect::Send {
                    to: Audience::Everyone,
                    message: crate::UpdateMessage::MultipleChoice(UpdateMessage::AnswersResults { answers, results }),
                }
            }
            &&& (players == 0 || answered < players) ==> after.core.state == before.core.state && effects.len() <= 1
            &&& (players == 0 || answered < players) && effects.len() == 1 ==> effects[0] == (Effect::Send {
                to: Audience::Kind(ValueKind::Host),
                message: crate::UpdateMessage::MultipleChoice(UpdateMessage::AnswersCount(answered)),
            })
            &&& (players == 0 || answered < players) && answered < 32 ==> effects.len() == 1
        }),
{
    answers_are_noted(before, after, watcher_id, message, stage, effects);
    let picks = accepted(before.config.answer_mode, before.config.answers@.len(), message);
    if let IncomingPlayerMessage::IndexArrayAnswer(picks) = message {
        assert(picks@.no_duplicates());
    }
    assert(picks is Some);
    let (recorded, answer) = choose|recorded: State, answer: Vec<usize>| {
        &&& answer@ == picks->0
        &&& #[trigger] before.recorded(recorded, watcher_id, answer, stage.now)
        &&& answer_followed_up(recorded, after, stage, effects)
    };
    crate::fuiz::common::results_wait_for_everyone(
        recorded.book.live_answered_count,
        stage.watchers.present(ValueKind::Player).len(),
    );
}

/// The clock starts with the choices, which go to every participant; an alarm for the results follows
/// where there is a time limit.
pub proof fn choices_start_the_clock(before: State, after: State, stage: Stage, effects: Seq<Effect>)
    requires
        before.entered(&after, SlideState::Answers, stage, effects),
        before.core.state == SlideState::Question,
    ensures
        after.core.state == SlideState::Answers,
        after.core.answer_start == Some(stage.now),
        after.config == before.config,
        after.book == before.book,
        ({
            let ids = stage.watchers.participants(stage.tunnels@);
            &&& effects.len() == ids.len() + if before.config.time_limit is Some { 1int } else { 0int }
            &&& forall|i: int|
                0 <= i < ids.len() ==> {
                    &&& (#[trigger] effects[i]) matches Effect::Send {
                        to: Audience::One(to),
                        message: crate::UpdateMessage::MultipleChoice(
                            UpdateMessage::AnswersAnnouncement { duration, answers, answer_mode },
                        ),
                    }
                    &&& to == ids[i]
                    &&& duration == before.config.time_limit
                    &&& answer_mode == before.config.answer_mode
                    &&& answers@ == shown_to(
                        before.config.answers@,
                        ids[i],
                        stage.watchers.values()[ids[i]].spec_kind(),
                        stage,
                    )
                }
            &&& before.config.time_limit is Some ==> effects[ids.len() as int] == (Effect::Schedule {
                alarm: crate::AlarmMessage::MultipleChoice(
                    AlarmMessage { index: stage.index, to: SlideState::AnswersResults },
                ),
                after: before.config.time_limit->0,
            })
        }),
{
    let ids = stage.watchers.participants(stage.tunnels@);
    assert forall|i: int| 0 <= i < ids.len() implies {
        &&& (#[trigger] effects[i]) matches Effect::Send {
            to: Audience::One(to),
            message: crate::UpdateMessage::MultipleChoice(
                UpdateMessage::AnswersAnnouncement { duration, answers, answer_mode },
            ),
        }
        &&& to == ids[i]
        &&& duration == before.config.time_limit
        &&& answer_mode == before.config.answer_mode
        &&& answers@ == shown_to(
            before.config.answers@,
            ids[i],
            stage.watchers.values()[ids[i]].spec_kind(),
            stage,
        )
    } by {
        assert(before.answers_announced(
            effects[i],
            ids[i],
            stage.watchers.values()[ids[i]].spec_kind(),
            stage,
        ));
    }
}

/// The question is shown for its time and the choices follow then: at once after no time, and when the host
/// asks for them where no time is set.
pub proof fn the_question_stays_for_its_time(before: State, after: State, stage: Stage, effects: Seq<Effect>)
    requires
        before.entered(&after, SlideState::Question, stage, effects),
        before.core.state == SlideState::Unstarted,
    ensures
        effects.len() > 0,
        effects[0] == (Effect::Send {
            to: Audience::Everyone,
            message: crate::UpdateMessage::MultipleChoice(
                UpdateMessage::QuestionAnnouncement {
                    index: stage.index,
                    count: stage.count,
                    question: before.config.title,
                    media: before.config.media,
                    duration: before.config.introduce_question,
                },
            ),
        }),
        before.config.introduce_question is None ==> after.core.state == SlideState::Question && effects.len() == 1,
        before.config.introduce_question matches Some(time) ==> if nanos(time) == 0 {
            after.core.state == SlideState::Answers && after.core.answer_start == Some(stage.now)
        } else {
            &&& after.core.state == SlideState::Question
            &&& after.core.answer_start == before.core.answer_start
            &&& effects.len() == 2
            &&& effects[1] == (Effect::Schedule {
                alarm: crate::AlarmMessage::MultipleChoice(AlarmMessage { index: stage.index, to: SlideState::Answers }),
                after: time,
            })
        },
        after.config == before.config,
        after.book == before.book,
{
}

/// The slide is announced for its time and the question follows then: at once after no time, and when the
/// host asks for it where no time is set.
pub proof fn the_slide_is_announced_for_its_time(before: State, after: State, stage: Stage, effects: Seq<Effect>)
    requires
        before.entered(&after, SlideState::Unstarted, stage, effects),
        before.core.state == SlideState::Unstarted,
    ensures
        effects.len() > 0,
        effects[0] == (Effect::Send {
            to: Audience::Everyone,
            message: crate::UpdateMessage::MultipleChoice(
                UpdateMessage::SlideAnnouncement {
                    index: stage.index,
                    count: stage.count,
                    points_awarded: before.config.points_awarded,
                    duration: before.config.introduce_slide,
                },
            ),
        }),
        before.config.introduce_slide is None ==> after == before && effects.len() == 1,
        before.config.introduce_slide matches Some(time) ==> if nanos(time) == 0 {
            after.core.state != SlideState::Unstarted && after.core.state != SlideState::AnswersResults
        } else {
            &&& after == before
            &&& effects.len() == 2
            &&& effects[1] == (Effect::Schedule {
                alarm: crate::AlarmMessage::MultipleChoice(AlarmMessage { index: stage.index, to: SlideState::Question }),
                after: time,
            })
        },
        after.config == before.config,
        after.book == before.book,
{
}

/// The results show every choice, whether it is correct, and by how many it was chosen; the answers stay.
pub proof fn results_show_every_choice(before: State, after: State, stage: Stage, effects: Seq<Effect>)
    requires
        before.entered(&after, SlideState::AnswersResults, stage, effects),
        before.core.state == SlideState::Answers,
    ensures
        after.core.state == SlideState::AnswersResults,
        after.core.answer_start == before.core.answer_start,
        after.config == before.config,
        after.book == before.book,
        effects.len() == 1,
        ({
            &&& effects[0] matches Effect::Send {
                to: Audience::Everyone,
                message: crate::UpdateMessage::MultipleChoice(UpdateMessage::AnswersResults { answers, results }),
            }
            &&& answers@.len() == before.config.answers@.len()
            &&& results@.len() == before.config.answers@.len()
            &&& forall|i: int|
                0 <= i < answers@.len() ==> #[trigger] answers@[i] == before.config.answers@[i].content
            &&& forall|i: int|
                0 <= i < results@.len() ==> (#[trigger] results@[i]).correct == before.config.answers@[i].correct
                    && results@[i].count == choosers(before.book.answers(), i as usize)
        }),
{
    assert(before.results_announced(effects[0]));
}

/// Whoever asks how things stand hears the time that is left: the time gone and the time left make up the
/// time limit until nothing is left.
pub proof fn the_time_left_is_told(slide: State, id: Id, kind: ValueKind, stage: Stage, message: SyncMessage, start: Timestamp)
    requires
        slide.is_state_message(id, kind, stage, message),
        slide.core.answer_start == Some(start),
        stage.now.nanos_since_epoch >= start.nanos_since_epoch,
    ensures
        slide.core.state == SlideState::Answers <==> message is AnswersAnnouncement,
        slide.core.state == SlideState::Question <==> message is QuestionAnnouncement,
        slide.core.state == SlideState::Unstarted <==> message is SlideAnnouncement,
        slide.core.state == SlideState::AnswersResults <==> message is AnswersResults,
        message matches SyncMessage::AnswersAnnouncement {
            index,
            count,
            question,
            media,
            duration,
            answers,
            answered_count,
            answer_mode,
        } ==> {
            let gone = stage.now.nanos_since_epoch - start.nanos_since_epoch;
            &&& index == stage.index && count == stage.count && question == slide.config.title
            &&& media == slide.config.media && answer_mode == slide.config.answer_mode
            &&& answered_count == slide.book.live_answered_count
            &&& duration is Some <==> slide.config.time_limit is Some
            &&& duration is Some && gone <= nanos(slide.config.time_limit->0) ==> nanos(duration->0) + gone == nanos(
                slide.config.time_limit->0,
            )
            &&& duration is Some && gone >= nanos(slide.config.time_limit->0) ==> nanos(duration->0) == 0
        },
{
}

/// A question is allowed where its length in bytes, its picture, its times, the number of its choices and the
/// length of their texts are; a time out of its range is told with that range.
pub proof fn questions_keep_the_limits(config: SlideConfig, settings: Settings)
    ensures
        ({
            let question = settings.question;
            config.problem(settings) is None <==> {
            &&& question.min_title_length <= encode_utf8(config.title@).len() as usize <= question.max_title_length
            &&& config.media matches Some(Media::Image(Image::Corkboard { id, alt })) ==> id@.len()
                == settings.corkboard.id_length && alt@.len() <= settings.corkboard.max_alt_length
            &&& config.introduce_slide matches Some(time) ==> question.min_introduce_slide * 1_000_000_000 <= nanos(time)
                <= question.max_introduce_slide * 1_000_000_000
            &&& config.introduce_question matches Some(time) ==> question.min_introduce_question * 1_000_000_000 <= nanos(
                time,
            ) <= question.max_introduce_question * 1_000_000_000
            &&& config.time_limit matches Some(time) ==> question.min_time_limit * 1_000_000_000 <= nanos(time)
                <= question.max_time_limit * 1_000_000_000
            &&& config.answers@.len() <= settings.multiple_choice.max_answer_count
            &&& forall|i: int|
                0 <= i < config.answers@.len() ==> ((#[trigger] config.answers@[i]).content matches TextOrMedia::Text(
                    text,
                ) ==> text@.len() <= settings.answer_text.max_length)
            }
        }),
        config.problem(settings) matches Some(Invalid::OutOfBounds { min, max }) ==> {
            let question = settings.question;
            ||| config.introduce_slide is Some && min == question.min_introduce_slide && max
                == question.max_introduce_slide && !(min * 1_000_000_000 <= nanos(config.introduce_slide->0) <= max
                * 1_000_000_000)
            ||| config.introduce_question is Some && min == question.min_introduce_question && max
                == question.max_introduce_question && !(min * 1_000_000_000 <= nanos(config.introduce_question->0)
                <= max * 1_000_000_000)
            ||| config.time_limit is Some && min == question.min_time_limit && max == question.max_time_limit && !(min
                * 1_000_000_000 <= nanos(config.time_limit->0) <= max * 1_000_000_000)
        },
        config.problem(settings) != Some(Invalid::Range),
{
}

// ---- what calls give ----

/// The part for several choices: picks that are correct count for it, all others against it, out of as many
/// parts as there are correct choices.
pub proof fn picks_are_weighed(config: SlideConfig, answer: Vec<usize>, part: Multiplier, correct: int)
    requires
        answer@.no_duplicates(),
        call_ensures(SlideConfig::compute_score_multiplier, (&config, &answer), part),
        0 <= correct < config.answers@.len(),
        config.answers@[correct].correct,
    ensures
        part.denominator == total_correct(config.answers@),
        2 * correct_picked(config.answers@, answer@) >= answer@.len() ==> part.numerator + answer@.len() == 2
            * correct_picked(config.answers@, answer@),
        2 * correct_picked(config.answers@, answer@) < answer@.len() ==> part.numerator == 0,
        part.numerator == part.denominator <==> forall|i: usize| #[trigger]
            answer@.contains(i) <==> i < config.answers@.len() && config.answers@[i as int].correct,
{
    assert(config.answers@.len() == config.answers.len());
    lemma_total_positive(config.answers@, correct);
    partial_credit_is_a_part(config.answers@, answer@);
    only_the_correct_picks_are_whole(config.answers@, answer@, correct);
}

/// Of two answers one of which has one more pick, the call tells them apart by it: one part more for a
/// correct pick, where the others are not mostly wrong, and one part less for a wrong one, where there is one
/// to lose.
pub proof fn one_more_pick_changes_one_part(
    config: SlideConfig,
    answer: Vec<usize>,
    longer: Vec<usize>,
    pick: usize,
    part: Multiplier,
    longer_part: Multiplier,
    correct: int,
)
    requires
        longer@ == answer@.push(pick),
        longer@.no_duplicates(),
        call_ensures(SlideConfig::compute_score_multiplier, (&config, &answer), part),
        call_ensures(SlideConfig::compute_score_multiplier, (&config, &longer), longer_part),
        0 <= correct < config.answers@.len(),
        config.answers@[correct].correct,
    ensures
        longer_part.denominator == part.denominator,
        pick < config.answers@.len() && config.answers@[pick as int].correct ==> {
            &&& part.numerator > 0 ==> longer_part.numerator == part.numerator + 1
            &&& longer_part.numerator <= part.numerator + 1
            &&& answer@.len() == 0 ==> longer_part.numerator == 1
        },
        !(pick < config.answers@.len() && config.answers@[pick as int].correct) ==> {
            &&& part.numerator > 0 ==> longer_part.numerator + 1 == part.numerator
            &&& part.numerator == 0 ==> longer_part.numerator == 0
        },
{
    assert(config.answers@.len() == config.answers.len());
    every_pick_counts(config.answers@, answer@, pick, correct);
    assert(answer@.no_duplicates()) by {
        assert(forall|i: int| 0 <= i < answer@.len() ==> answer@[i] == longer@[i]);
    }
    partial_credit_is_a_part(config.answers@, answer@);
    if answer@.len() == 0 {
        assert(answer@ =~= Seq::<usize>::empty());
    }
}

/// A single choice is judged by itself, and several by whether more of them are correct than not.
pub proof fn choices_are_judged(slide: State, answer: Vec<usize>, correct: bool, part: Multiplier)
    requires
        answer@.no_duplicates(),
        call_ensures(<State as AnswerHandler<Vec<usize>>>::is_correct_answer, (&slide, &answer), correct),
        call_ensures(<State as AnswerHandler<Vec<usize>>>::score_multiplier, (&slide, &answer), part),
    ensures
        correct <==> part.numerator > 0,
        slide.config.answer_mode == AnswerMode::SingleAnswer ==> {
            &&& correct <==> answer@.len() == 1 && answer@[0] < slide.config.answers@.len()
                && slide.config.answers@[answer@[0] as int].correct
            &&& part.denominator == 1
            &&& part.numerator <= 1
        },
        slide.config.answer_mode == AnswerMode::MultipleAnswers ==> (correct <==> 2 * correct_picked(
            slide.config.answers@,
            answer@,
        ) > answer@.len()),
{
    answers_are_judged(slide, answer);
    assert(slide.config.answers@.len() == slide.config.answers.len());
    partial_credit_is_a_part(slide.config.answers@, answer@);
}

/// How the choices fared is told for each choice in turn: whether it is correct, and how many chose it.
pub proof fn every_choice_is_tallied(slide: State, results: Vec<AnswerChoiceResult>, i: int)
    requires
        call_ensures(State::per_index_answer_counts, (&slide,), results),
        0 <= i < slide.config.answers@.len(),
    ensures
        results@.len() == slide.config.answers@.len(),
        results@[i].correct == slide.config.answers@[i].correct,
        results@[i].count == choosers(slide.book.answers(), i as usize),
{
    assert(results[i].correct == slide.config.answers@[i].correct);
}

/// Whoever asks sees the screen of the phase: the slide announced, the question for the time that is left, the
/// choices that are theirs to see, or how every choice fared.
pub proof fn the_screen_is_told(slide: State, id: Id, kind: ValueKind, stage: Stage, message: SyncMessage)
    requires
        slide.is_state_message(id, kind, stage, message),
    ensures
        match message {
            SyncMessage::SlideAnnouncement { index, count, points_awarded, duration } => {
                &&& slide.core.state == SlideState::Unstarted
                &&& index == stage.index && count == stage.count
                &&& points_awarded == slide.config.points_awarded
                &&& duration == slide.config.introduce_slide
            },
            SyncMessage::QuestionAnnouncement { index, count, question, media, duration } => {
                &&& slide.core.state == SlideState::Question
                &&& index == stage.index && count == stage.count
                &&& question == slide.config.title && media == slide.config.media
                &&& duration is Some <==> slide.config.introduce_question is Some
                &&& duration is Some && slide.core.answer_start is None ==> nanos(duration->0) == nanos(
                    slide.config.introduce_question->0,
                )
            },
            SyncMessage::AnswersAnnouncement {
                index,
                count,
                question,
                media,
                duration,
                answers,
                answered_count,
                answer_mode,
            } => {
                &&& slide.core.state == SlideState::Answers
                &&& answers@ == shown_to(slide.config.answers@, id, kind, stage)
            },
            SyncMessage::AnswersResults { index, count, question, media, answers, results } => {
                &&& slide.core.state == SlideState::AnswersResults
                &&& index == stage.index && count == stage.count
                &&& question == slide.config.title && media == slide.config.media
                &&& answers@.len() == slide.config.answers@.len()
                &&& results@.len() == slide.config.answers@.len()
                &&& forall|i: int|
                    0 <= i < answers@.len() ==> #[trigger] answers@[i] == slide.config.answers@[i].content
                &&& forall|i: int|
                    0 <= i < results@.len() ==> (#[trigger] results@[i]).correct == slide.config.answers@[i].correct
                        && results@[i].count == choosers(slide.book.answers(), i as usize)
            },
        },
{
}

} // verus!
