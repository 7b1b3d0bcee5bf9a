//! Slides on which items are put in order.
use std::time::Duration;

use vstd::prelude::*;
use vstd::string::StrSliceExecFns;

use crate::fuiz::common::{
    answer_followed_up, correct_answers, correct_count, default_receive_alarm, handle_post_answer, is_zero, AnswerBook,
    AnswerHandler, Multiplier, PhasedSlide, ProceedFromSlideIntoSlide, QuestionReceiveMessage, SlideCore, SlideState,
    SlideStateManager, SlideTimer,
};
use crate::fuiz::config::SlideAction;
use crate::fuiz::media::{copy_media, Image, Media};
use crate::game::IncomingPlayerMessage;
use crate::random::{in_random_order, was_shuffled};
use crate::session::{Audience, Effect, Stage};
use crate::settings::{verdict, within, Invalid, Settings};
use crate::texts::{copy_texts, same_texts, texts};
use crate::time::{nanos, Timestamp};
use crate::watcher::{Id, ValueKind};

verus! {

/// Where a slide is on its way.
pub type Phase = SlideState;

/// An alarm that moves a slide on.
pub type AlarmMessage = ProceedFromSlideIntoSlide;

/// What the two ends of the order stand for.
#[derive(Debug)]
pub struct AxisLabels {
    /// The start.
    pub from: Option<String>,
    /// The end.
    pub to: Option<String>,
}

fn copy_label(label: &Option<String>) -> (copy: Option<String>)
    ensures
        copy == *label,
{
    match label {
        Some(text) => Some(text.clone()),
        None => None,
    }
}

impl Clone for AxisLabels {
    fn clone(&self) -> (copy: Self)
        ensures
            copy == *self,
    {
        AxisLabels { from: copy_label(&self.from), to: copy_label(&self.to) }
    }
}

/// A question about an order.
#[derive(Debug)]
pub struct SlideConfig {
    /// The question.
    pub title: String,
    /// A picture with it.
    pub media: Option<Media>,
    /// For how long the question is shown without the items.
    pub introduce_question: Option<Duration>,
    /// For how long answers are taken.
    pub time_limit: Option<Duration>,
    /// The most points for an answer.
    pub points_awarded: u64,
    /// The items in order.
    pub answers: Vec<String>,
    /// What the two ends of the order stand for.
    pub axis_labels: AxisLabels,
}

/// A slide on which items are put in order.
#[derive(Debug)]
pub struct State {
    /// The question.
    pub config: SlideConfig,
    /// The items as they are shown.
    pub shuffled_answers: Vec<String>,
    /// The answers.
    pub book: AnswerBook<Vec<String>>,
    /// Where the slide is on its way.
    pub core: SlideCore,
}

/// What is new on a slide about an order.
#[allow(inconsistent_fields)]
#[derive(Debug)]
pub enum UpdateMessage {
    /// The question is shown.
    QuestionAnnouncement {
        /// The number of the slide.
        index: usize,
        /// The number of slides.
        count: usize,
        /// The question.
        question: String,
        /// A picture with it.
        media: Option<Media>,
        /// For how long it is shown without the items.
        duration: Option<Duration>,
    },
    /// The items are shown.
    AnswersAnnouncement {
        /// What the two ends of the order stand for.
        axis_labels: AxisLabels,
        /// The items.
        answers: Vec<String>,
        /// For how long answers are taken.
        duration: Option<Duration>,
    },
    /// So many have answered.
    AnswersCount(usize),
    /// The results are shown.
    AnswersResults {
        /// The items in order.
        answers: Vec<String>,
        /// How many found the order, and how many did not.
        results: (usize, usize),
    },
}

/// How things stand on a slide about an order.
#[allow(inconsistent_fields)]
#[derive(Debug)]
pub enum SyncMessage {
    /// The question is shown.
    QuestionAnnouncement {
        /// The number of the slide.
        index: usize,
        /// The number of slides.
        count: usize,
        /// The question.
        question: String,
        /// A picture with it.
        media: Option<Media>,
        /// For how long it is still shown without the items.
        duration: Option<Duration>,
    },
    /// The items are shown.
    AnswersAnnouncement {
        /// The number of the slide.
        index: usize,
        /// The number of slides.
        count: usize,
        /// The question.
        question: String,
        /// What the two ends of the order stand for.
        axis_labels: AxisLabels,
        /// A picture with it.
        media: Option<Media>,
        /// The items.
        answers: Vec<String>,
        /// For how long answers are still taken.
        duration: Option<Duration>,
    },
    /// The results are shown.
    AnswersResults {
        /// The number of the slide.
        index: usize,
        /// The number of slides.
        count: usize,
        /// The question.
        question: String,
        /// What the two ends of the order stand for.
        axis_labels: AxisLabels,
        /// A picture with it.
        media: Option<Media>,
        /// The items in order.
        answers: Vec<String>,
        /// How many found the order, and how many did not.
        results: (usize, usize),
    },
}

/// Whether some text has more than `max` characters.
pub open spec fn some_too_long(list: Seq<String>, max: usize) -> bool {
    exists|i: int| 0 <= i < list.len() && (#[trigger] list[i])@.len() > max
}

/// Whether some text has more than `max` characters.
pub fn any_too_long(list: &Vec<String>, max: usize) -> (result: bool)
    ensures
        result == some_too_long(list@, max),
{
    let mut i: usize = 0;
    while i < list.len()
        invariant
            i <= list.len(),
            forall|j: int| 0 <= j < i ==> (#[trigger] list@[j])@.len() <= max,
        decreases list.len() - i,
    {
        if list[i].as_str().unicode_len() > max {
            assert(list@[i as int]@.len() > max);
            return true;
        }
        i = i + 1;
    }
    false
}

/// Whether a label has more than `max` characters.
pub open spec fn label_too_long(label: Option<String>, max: usize) -> bool {
    label is Some && label->0@.len() > max
}

fn is_label_too_long(label: &Option<String>, max: usize) -> (result: bool)
    ensures
        result == label_too_long(*label, max),
{
    match label {
        Some(text) => text.as_str().unicode_len() > max,
        None => false,
    }
}

impl Clone for SlideConfig {
    fn clone(&self) -> (copy: Self)
        ensures
            copy.same(self),
    {
        SlideConfig {
            title: self.title.clone(),
            media: copy_media(&self.media),
            introduce_question: self.introduce_question,
            time_limit: self.time_limit,
            points_awarded: self.points_awarded,
            answers: copy_texts(&self.answers),
            axis_labels: self.axis_labels.clone(),
        }
    }
}

impl SlideConfig {
    /// Whether the two are the same question.
    pub open spec fn same(&self, other: &Self) -> bool {
        &&& self.title == other.title
        &&& self.media == other.media
        &&& self.introduce_question == other.introduce_question
        &&& self.time_limit == other.time_limit
        &&& self.points_awarded == other.points_awarded
        &&& self.answers@ == other.answers@
        &&& self.axis_labels == other.axis_labels
    }

    /// The slide before it starts.
    pub fn to_state(&self) -> (state: State)
        ensures
            state.wf(),
            state.config.same(self),
            state.shuffled_answers@ == Seq::<String>::empty(),
            state.book.answers() == Map::<Id, (Vec<String>, Timestamp)>::empty(),
            state.book.live_answered_count == 0,
            state.core == (SlideCore { state: SlideState::Unstarted, answer_start: None }),
    {
        State {
            config: self.clone(),
            shuffled_answers: Vec::new(),
            book: AnswerBook::new(),
            core: SlideCore::default(),
        }
    }

    /// The first limit that the question breaks.
    pub open spec fn problem(&self, settings: Settings) -> Option<Invalid> {
        let question = settings.question;
        if self.title@.len() < question.min_title_length || self.title@.len() > question.max_title_length {
            Some(Invalid::Length)
        } else if self.media is Some && self.media->0.problem(settings.corkboard) is Some {
            self.media->0.problem(settings.corkboard)
        } else if !within(self.introduce_question, question.min_introduce_question, question.max_introduce_question) {
            Some((Invalid::OutOfBounds { min: question.min_introduce_question, max: question.max_introduce_question }))
        } else if !within(self.time_limit, question.min_time_limit, question.max_time_limit) {
            Some((Invalid::OutOfBounds { min: question.min_time_limit, max: question.max_time_limit }))
        } else if self.answers@.len() > settings.order.max_answer_count || some_too_long(
            self.answers@,
            settings.answer_text.max_length,
        ) || label_too_long(self.axis_labels.from, settings.order.max_label_length) || label_too_long(
            self.axis_labels.to,
            settings.order.max_label_length,
        ) {
            Some(Invalid::Length)
        } else {
            None
        }
    }

    /// Tells what is wrong with the question, if anything.
    pub fn validate_with(&self, settings: &Settings) -> (result: Result<(), Invalid>)
        ensures
            result == verdict(self.problem(*settings)),
    {
        let length: usize = self.title.as_str().unicode_len();
        if length < settings.question.min_title_length || length > settings.question.max_title_length {
            return Err(Invalid::Length);
        }
        if let Some(media) = &self.media {
            let result = media.validate_with(&settings.corkboard);
            if result.is_err() {
                return result;
            }
        }
        if let Err(problem) = settings.question.validate_introduce_question(&self.introduce_question) {
            return Err(problem);
        }
        if let Err(problem) = settings.question.validate_time_limit(&self.time_limit) {
            return Err(problem);
        }
        if self.answers.len() > settings.order.max_answer_count || any_too_long(
            &self.answers,
            settings.answer_text.max_length,
        ) || is_label_too_long(&self.axis_labels.from, settings.order.max_label_length) || is_label_too_long(
            &self.axis_labels.to,
            settings.order.max_label_length,
        ) {
            Err(Invalid::Length)
        } else {
            Ok(())
        }
    }
}

// ---- how close an arrangement is ----

/// How many of the first `n` items are where they belong.
pub open spec fn in_place(arranged: Seq<Seq<char>>, correct: Seq<Seq<char>>, n: nat) -> nat
    decreases n,
{
    if n == 0 {
        0
    } else {
        in_place(arranged, correct, (n - 1) as nat) + if n <= arranged.len() && n <= correct.len() && arranged[n - 1]
            == correct[n - 1] {
            1nat
        } else {
            0nat
        }
    }
}

/// The length of the longer one.
pub open spec fn longer(arranged: Seq<Seq<char>>, correct: Seq<Seq<char>>) -> nat {
    if arranged.len() < correct.len() {
        correct.len()
    } else {
        arranged.len()
    }
}

/// How close an arrangement is to the correct order: the part of the items that are where they belong.
pub open spec fn closeness(arranged: Seq<Seq<char>>, correct: Seq<Seq<char>>) -> Multiplier {
    let count = longer(arranged, correct);
    if count == 0 {
        Multiplier::spec_whole(true)
    } else {
        Multiplier { numerator: in_place(arranged, correct, count) as usize, denominator: count as usize }
    }
}

proof fn lemma_in_place(arranged: Seq<Seq<char>>, correct: Seq<Seq<char>>, n: nat)
    ensures
        in_place(arranged, correct, n) <= n,
        in_place(arranged, correct, n) == n <==> n <= arranged.len() && n <= correct.len() && (forall|i: int|
            0 <= i < n ==> arranged[i] == correct[i]),
    decreases n,
{
    if n > 0 {
        lemma_in_place(arranged, correct, (n - 1) as nat);
    }
}

/// An arrangement earns a part of the points, and the whole exactly where it is the correct order.
pub proof fn only_the_correct_order_is_whole(arranged: Seq<Seq<char>>, correct: Seq<Seq<char>>)
    requires
        arranged.len() <= usize::MAX,
        correct.len() <= usize::MAX,
    ensures
        closeness(arranged, correct).wf(),
        closeness(arranged, correct).numerator == closeness(arranged, correct).denominator <==> arranged == correct,
{
    let count = longer(arranged, correct);
    lemma_in_place(arranged, correct, count);
    if count == 0 {
        assert(arranged =~= correct);
    } else if in_place(arranged, correct, count) == count {
        assert(arranged =~= correct);
    }
}

/// Of two arrangements of all items, the one with more of them where they belong never earns less.
pub proof fn closer_arrangements_earn_no_less(a: Seq<Seq<char>>, b: Seq<Seq<char>>, correct: Seq<Seq<char>>, points: nat)
    requires
        a.len() == correct.len(),
        b.len() == correct.len(),
        correct.len() <= usize::MAX,
        in_place(a, correct, correct.len()) <= in_place(b, correct, correct.len()),
    ensures
        closeness(a, correct).numerator <= closeness(b, correct).numerator,
        closeness(a, correct).denominator == closeness(b, correct).denominator,
        closeness(a, correct).of(points) <= closeness(b, correct).of(points),
{
    only_the_correct_order_is_whole(a, correct);
    only_the_correct_order_is_whole(b, correct);
    lemma_in_place(a, correct, correct.len());
    lemma_in_place(b, correct, correct.len());
    let less = closeness(a, correct).numerator as int;
    let more = closeness(b, correct).numerator as int;
    let d = closeness(b, correct).denominator as int;
    let p = points as int;
    assert(0 <= p * less <= p * more) by (nonlinear_arith)
        requires
            p >= 0,
            0 <= less <= more,
    ;
    vstd::arithmetic::div_mod::lemma_div_is_ordered(p * less, p * more, d);
    vstd::arithmetic::div_mod::lemma_div_pos_is_pos(p * less, d);
}

impl SlideConfig {
    /// How close an arrangement is to the correct order.
    pub fn compute_closeness(&self, arranged: &Vec<String>) -> (part: Multiplier)
        ensures
            part == closeness(texts(arranged@), texts(self.answers@)),
            part.wf(),
    {
        let ghost given = texts(arranged@);
        let ghost correct = texts(self.answers@);
        let count: usize = if arranged.len() < self.answers.len() {
            self.answers.len()
        } else {
            arranged.len()
        };
        let mut placed: usize = 0;
        let mut i: usize = 0;
        while i < count
            invariant
                i <= count,
                placed <= i,
                given == texts(arranged@),
                correct == texts(self.answers@),
                placed == in_place(given, correct, i as nat),
            decreases count - i,
        {
            if i < arranged.len() && i < self.answers.len() && arranged[i] == self.answers[i] {
                placed = placed + 1;
            }
            i = i + 1;
        }
        proof {
            only_the_correct_order_is_whole(given, correct);
        }
        if count == 0 {
            Multiplier::whole(true)
        } else {
            Multiplier { numerator: placed, denominator: count }
        }
    }
}

impl AnswerHandler<Vec<String>> for State {
    open spec fn wf(&self) -> bool {
        true
    }

    open spec fn book(&self) -> AnswerBook<Vec<String>> {
        self.book
    }

    open spec fn progress(&self) -> SlideCore {
        self.core
    }

    open spec fn is_correct(&self, answer: Vec<String>) -> bool {
        texts(answer@) == texts(self.config.answers@)
    }

    open spec fn recordable(&self, answer: Vec<String>) -> bool {
        true
    }

    open spec fn multiplier(&self, answer: Vec<String>) -> Multiplier {
        closeness(texts(answer@), texts(self.config.answers@))
    }

    open spec fn full_points(&self) -> u64 {
        self.config.points_awarded
    }

    open spec fn window(&self) -> Option<Duration> {
        self.config.time_limit
    }

    proof fn recorded_answers(&self, id: Id) {
        let answer = self.book.answers()[id].0;
        assert(answer@.len() == answer.len());
        assert(self.config.answers@.len() == self.config.answers.len());
        only_the_correct_order_is_whole(texts(answer@), texts(self.config.answers@));
    }

    fn answer_book(&self) -> (book: &AnswerBook<Vec<String>>) {
        &self.book
    }

    fn slide_core(&self) -> (core: SlideCore) {
        self.core
    }

    fn is_correct_answer(&self, answer: &Vec<String>) -> (correct: bool) {
        same_texts(answer, &self.config.answers)
    }

    fn score_multiplier(&self, answer: &Vec<String>) -> (multiplier: Multiplier) {
        self.config.compute_closeness(answer)
    }

    fn max_points(&self) -> (points: u64) {
        self.config.points_awarded
    }

    fn time_limit(&self) -> (limit: Option<Duration>) {
        self.config.time_limit
    }
}

/// A message to everyone.
pub open spec fn told(message: UpdateMessage) -> Effect {
    Effect::Send { to: Audience::Everyone, message: crate::UpdateMessage::Order(message) }
}

/// An alarm that moves the slide on.
pub open spec fn scheduled(index: usize, to: SlideState, after: Duration) -> Effect {
    Effect::Schedule { alarm: crate::AlarmMessage::Order(AlarmMessage { index, to }), after }
}

impl State {
    /// How many found the order, and how many did not.
    pub open spec fn is_result(&self, results: (usize, usize)) -> bool {
        &&& results.0 == correct_answers(*self).len()
        &&& results.0 + results.1 == self.book.answers().dom().len()
    }

    fn results(&self) -> (results: (usize, usize))
        ensures
            self.is_result(results),
    {
        let correct: usize = correct_count(self);
        let total: usize = self.book.user_answers.len();
        (correct, total - correct)
    }

    /// The announcement of the question.
    pub open spec fn question_announced(&self, stage: Stage) -> Effect {
        told(
            UpdateMessage::QuestionAnnouncement {
                index: stage.index,
                count: stage.count,
                question: self.config.title,
                media: self.config.media,
                duration: self.config.introduce_question,
            },
        )
    }

    /// Whether `effect` shows everyone the items.
    pub open spec fn answers_announced(&self, effect: Effect, items: Seq<String>) -> bool {
        &&& effect matches Effect::Send {
            to: Audience::Everyone,
            message: crate::UpdateMessage::Order(UpdateMessage::AnswersAnnouncement { axis_labels, answers, duration }),
        }
        &&& axis_labels == self.config.axis_labels
        &&& answers@ == items
        &&& duration == self.config.time_limit
    }

    /// Whether `effect` shows everyone the results.
    pub open spec fn results_announced(&self, effect: Effect) -> bool {
        &&& effect matches Effect::Send {
            to: Audience::Everyone,
            message: crate::UpdateMessage::Order(UpdateMessage::AnswersResults { answers, results }),
        }
        &&& answers@ == self.config.answers@
        &&& self.is_result(results)
    }

    /// The slide in another phase.
    pub open spec fn in_phase(&self, state: SlideState) -> State {
        State { core: SlideCore { state, ..self.core }, ..*self }
    }

    /// Whether showing the items leads from here to `after`: everyone sees the same items, in random
    /// order, and the time runs.
    pub open spec fn entered_answers(&self, after: &State, stage: Stage, effects: Seq<Effect>) -> bool {
        if self.core.state != SlideState::Question {
            *after == *self && effects.len() == 0
        } else {
            &&& *after == State {
                core: SlideCore { state: SlideState::Answers, answer_start: Some(stage.now) },
                shuffled_answers: after.shuffled_answers,
                ..*self
            }
            &&& was_shuffled(self.config.answers@, after.shuffled_answers@)
            &&& after.shuffled_answers@.to_multiset() == self.config.answers@.to_multiset()
            &&& effects.len() == 1 + if self.config.time_limit is Some { 1int } else { 0int }
            &&& self.answers_announced(effects[0], after.shuffled_answers@)
            &&& self.config.time_limit is Some ==> effects[1] == scheduled(
                stage.index,
                SlideState::AnswersResults,
                self.config.time_limit->0,
            )
        }
    }

    /// Whether showing the question leads from here to `after`: the items follow at once, after a
    /// while, or when the host asks for them.
    pub open spec fn entered_question(&self, after: &State, stage: Stage, effects: Seq<Effect>) -> bool {
        if self.core.state != SlideState::Unstarted {
            *after == *self && effects.len() == 0
        } else {
            let asked = self.in_phase(SlideState::Question);
            &&& effects.len() > 0
            &&& effects[0] == self.question_announced(stage)
            &&& match self.config.introduce_question {
                None => *after == asked && effects.len() == 1,
                Some(time) => if nanos(time) == 0 {
                    asked.entered_answers(after, stage, effects.skip(1))
                } else {
                    *after == asked && effects == seq![
                        self.question_announced(stage),
                        scheduled(stage.index, SlideState::Answers, time),
                    ]
                },
            }
        }
    }

    fn enter_answers(&mut self, stage: &Stage) -> (effects: Vec<Effect>)
        ensures
            old(self).entered_answers(final(self), *stage, effects@),
    {
        let mut effects: Vec<Effect> = Vec::new();
        if !self.core.change_state(SlideState::Question, SlideState::Answers) {
            return effects;
        }
        self.shuffled_answers = in_random_order(copy_texts(&self.config.answers));
        self.core.start_timer(stage.now);
        effects.push(
            Effect::Send {
                to: Audience::Everyone,
                message: crate::UpdateMessage::Order(
                    UpdateMessage::AnswersAnnouncement {
                        axis_labels: self.config.axis_labels.clone(),
                        answers: copy_texts(&self.shuffled_answers),
                        duration: self.config.time_limit,
                    },
                ),
            },
        );
        if let Some(time_limit) = self.config.time_limit {
            effects.push(
                Effect::Schedule {
                    alarm: crate::AlarmMessage::Order(
                        AlarmMessage { index: stage.index, to: SlideState::AnswersResults },
                    ),
                    after: time_limit,
                },
            );
        }
        effects
    }

    fn enter_question(&mut self, stage: &Stage) -> (effects: Vec<Effect>)
        ensures
            old(self).entered_question(final(self), *stage, effects@),
    {
        let mut effects: Vec<Effect> = Vec::new();
        if !self.core.change_state(SlideState::Unstarted, SlideState::Question) {
            return effects;
        }
        assert(*self == old(self).in_phase(SlideState::Question));
        effects.push(
            Effect::Send {
                to: Audience::Everyone,
                message: crate::UpdateMessage::Order(
                    UpdateMessage::QuestionAnnouncement {
                        index: stage.index,
                        count: stage.count,
                        question: self.config.title.clone(),
                        media: copy_media(&self.config.media),
                        duration: self.config.introduce_question,
                    },
                ),
            },
        );
        if let Some(time) = self.config.introduce_question {
            if is_zero(&time) {
                let mut rest = self.enter_answers(stage);
                let ghost more = rest@;
                effects.append(&mut rest);
                assert(effects@.skip(1) =~= more);
            } else {
                effects.push(
                    Effect::Schedule {
                        alarm: crate::AlarmMessage::Order(
                            AlarmMessage { index: stage.index, to: SlideState::Answers },
                        ),
                        after: time,
                    },
                );
                assert(effects@ =~= seq![
                    old(self).question_announced(*stage),
                    scheduled(stage.index, SlideState::Answers, time),
                ]);
            }
        }
        effects
    }

    /// Starts the slide, with the question.
    pub fn play(&mut self, stage: &Stage) -> (effects: Vec<Effect>)
        requires
            stage.wf(),
        ensures
            old(self).entered_question(final(self), *stage, effects@),
    {
        self.enter_phase(SlideState::Question, stage)
    }
}

impl PhasedSlide<Vec<String>> for State {
    open spec fn entered(&self, after: &Self, phase: SlideState, stage: Stage, effects: Seq<Effect>) -> bool {
        match phase {
            SlideState::Unstarted => *after == *self && effects.len() == 0,
            SlideState::Question => self.entered_question(after, stage, effects),
            SlideState::Answers => self.entered_answers(after, stage, effects),
            SlideState::AnswersResults => self.results_sent(after, effects),
        }
    }

    open spec fn results_sent(&self, after: &Self, effects: Seq<Effect>) -> bool {
        if self.core.state != SlideState::Answers {
            *after == *self && effects.len() == 0
        } else {
            &&& *after == self.in_phase(SlideState::AnswersResults)
            &&& effects.len() == 1
            &&& self.results_announced(effects[0])
        }
    }

    open spec fn spec_answers_count_message(count: usize) -> crate::UpdateMessage {
        crate::UpdateMessage::Order(UpdateMessage::AnswersCount(count))
    }

    fn answers_count_message(count: usize) -> (message: crate::UpdateMessage) {
        crate::UpdateMessage::Order(UpdateMessage::AnswersCount(count))
    }

    fn send_answers_results(&mut self) -> (effects: Vec<Effect>) {
        let mut effects: Vec<Effect> = Vec::new();
        if self.core.state() == SlideState::Answers {
            effects.push(
                Effect::Send {
                    to: Audience::Everyone,
                    message: crate::UpdateMessage::Order(
                        UpdateMessage::AnswersResults {
                            answers: copy_texts(&self.config.answers),
                            results: self.results(),
                        },
                    ),
                },
            );
            self.core.change_state(SlideState::Answers, SlideState::AnswersResults);
        }
        effects
    }

    fn enter_phase(&mut self, phase: SlideState, stage: &Stage) -> (effects: Vec<Effect>) {
        match phase {
            SlideState::Unstarted => Vec::new(),
            SlideState::Question => self.enter_question(stage),
            SlideState::Answers => self.enter_answers(stage),
            SlideState::AnswersResults => self.send_answers_results(),
        }
    }
}

impl QuestionReceiveMessage<Vec<String>> for State {
    open spec fn answered(
        &self,
        after: &Self,
        watcher_id: Id,
        message: IncomingPlayerMessage,
        stage: Stage,
        effects: Seq<Effect>,
    ) -> bool {
        match message {
            IncomingPlayerMessage::StringArrayAnswer(answer) => exists|recorded: State| #[trigger]
                self.recorded(recorded, watcher_id, answer, stage.now) && answer_followed_up(
                    recorded,
                    *after,
                    stage,
                    effects,
                ),
            _ => *after == *self && effects.len() == 0,
        }
    }

    fn receive_player_message(&mut self, watcher_id: Id, message: IncomingPlayerMessage, stage: &Stage) -> (effects: Vec<
        Effect,
    >) {
        match message {
            IncomingPlayerMessage::StringArrayAnswer(answer) => {
                self.book.record_answer(watcher_id, answer, stage.now);
                assert(old(self).recorded(*self, watcher_id, answer, stage.now));
                handle_post_answer::<Vec<String>, State>(self, stage)
            },
            _ => Vec::new(),
        }
    }
}

impl State {
    /// Whether `after` is this slide with one more answer.
    pub open spec fn recorded(&self, after: State, id: Id, answer: Vec<String>, now: Timestamp) -> bool {
        &&& after.config == self.config
        &&& after.shuffled_answers == self.shuffled_answers
        &&& after.core == self.core
        &&& after.book.answers() == self.book.answers().insert(id, (answer, now))
        &&& after.book.live_answered_count == if self.book.answers().contains_key(id) {
            self.book.live_answered_count as int
        } else {
            self.book.live_answered_count + 1
        }
    }

    /// Whether `message` tells how things stand.
    pub open spec fn is_state_message(&self, stage: Stage, message: SyncMessage) -> bool {
        match self.core.state {
            SlideState::Unstarted | SlideState::Question => {
                &&& message matches SyncMessage::QuestionAnnouncement { index, count, question, media, duration }
                &&& index == stage.index
                &&& count == stage.count
                &&& question == self.config.title
                &&& media == self.config.media
                &&& self.core.is_left(self.config.introduce_question, stage.now, duration)
            },
            SlideState::Answers => {
                &&& message matches SyncMessage::AnswersAnnouncement {
                    index,
                    count,
                    question,
                    axis_labels,
                    media,
                    answers,
                    duration,
                }
                &&& index == stage.index
                &&& count == stage.count
                &&& question == self.config.title
                &&& axis_labels == self.config.axis_labels
                &&& media == self.config.media
                &&& answers@ == self.shuffled_answers@
                &&& self.core.is_left(self.config.time_limit, stage.now, duration)
            },
            SlideState::AnswersResults => {
                &&& message matches SyncMessage::AnswersResults {
                    index,
                    count,
                    question,
                    axis_labels,
                    media,
                    answers,
                    results,
                }
                &&& index == stage.index
                &&& count == stage.count
                &&& question == self.config.title
                &&& axis_labels == self.config.axis_labels
                &&& media == self.config.media
                &&& answers@ == self.config.answers@
                &&& self.is_result(results)
            },
        }
    }

    /// Tells how things stand.
    pub fn state_message(&self, stage: &Stage) -> (message: SyncMessage)
        ensures
            self.is_state_message(*stage, message),
    {
        match self.core.state() {
            SlideState::Unstarted | SlideState::Question => SyncMessage::QuestionAnnouncement {
                index: stage.index,
                count: stage.count,
                question: self.config.title.clone(),
                media: copy_media(&self.config.media),
                duration: self.core.time_left(self.config.introduce_question, stage.now),
            },
            SlideState::Answers => SyncMessage::AnswersAnnouncement {
                index: stage.index,
                count: stage.count,
                question: self.config.title.clone(),
                axis_labels: self.config.axis_labels.clone(),
                media: copy_media(&self.config.media),
                answers: copy_texts(&self.shuffled_answers),
                duration: self.core.time_left(self.config.time_limit, stage.now),
            },
            SlideState::AnswersResults => SyncMessage::AnswersResults {
                index: stage.index,
                count: stage.count,
                question: self.config.title.clone(),
                axis_labels: self.config.axis_labels.clone(),
                media: copy_media(&self.config.media),
                answers: copy_texts(&self.config.answers),
                results: self.results(),
            },
        }
    }

    /// Takes an alarm; those of other kinds of slides do not matter.
    pub fn receive_alarm(&mut self, message: &crate::AlarmMessage, stage: &Stage) -> (result: (SlideAction, Vec<Effect>))
        requires
            stage.wf(),
        ensures
            result.0 == SlideAction::Stay,
            match *message {
                crate::AlarmMessage::Order(alarm) => old(self).entered(final(self), alarm.to, *stage, result.1@),
                _ => *final(self) == *old(self) && result.1@.len() == 0,
            },
    {
        match message {
            crate::AlarmMessage::Order(alarm) => default_receive_alarm::<Vec<String>, State>(self, alarm.to, stage),
            _ => (SlideAction::Stay, Vec::new()),
        }
    }
}

/// Only the next phase can be entered: asking for any other one does nothing, so an alarm that comes
/// too late, or twice, does nothing.
pub proof fn only_the_next_phase_is_entered(
    before: State,
    after: State,
    phase: SlideState,
    stage: Stage,
    effects: Seq<Effect>,
)
    requires
        before.entered(&after, phase, stage, effects),
        before.core.state.spec_next() != Some(phase),
        phase != SlideState::Unstarted,
    ensures
        after == before,
        effects.len() == 0,
{
}

/// Entering the next phase brings the slide closer to its end, and never past the phase in which
/// answers are taken.
pub proof fn phases_lead_on(before: State, after: State, phase: SlideState, stage: Stage, effects: Seq<Effect>)
    requires
        before.entered(&after, phase, stage, effects),
        before.core.state.spec_next() == Some(phase),
    ensures
        after.core.state.steps_left() < before.core.state.steps_left(),
        phase != SlideState::AnswersResults ==> after.core.state.steps_left() >= 1,
        after.config == before.config,
        after.book == before.book,
{
}

/// Answers of players change the phase only to show the results, once everyone has answered.
pub proof fn answers_only_bring_results(
    before: State,
    after: State,
    watcher_id: Id,
    message: IncomingPlayerMessage,
    stage: Stage,
    effects: Seq<Effect>,
)
    requires
        before.answered(&after, watcher_id, message, stage, effects),
    ensures
        after.core.state == before.core.state || (before.core.state == SlideState::Answers && after.core.state
            == SlideState::AnswersResults),
        after.config == before.config,
{
}

// ---- what players can count on ----

/// An order is correct where it has as many items as the question and each is the one that belongs there,
/// and exactly there everything is earned.
pub proof fn every_item_has_to_be_in_place(slide: State, answer: Vec<String>)
    ensures
        slide.is_correct(answer) <==> answer@.len() == slide.config.answers@.len() && forall|i: int|
            0 <= i < answer@.len() ==> (#[trigger] answer@[i])@ == slide.config.answers@[i]@,
        slide.is_correct(answer) <==> slide.multiplier(answer).numerator == slide.multiplier(answer).denominator,
        slide.multiplier(answer).denominator > 0,
        slide.full_points() == slide.config.points_awarded,
        slide.window() == slide.config.time_limit,
{
    let given = texts(answer@);
    let correct = texts(slide.config.answers@);
    assert(answer@.len() == answer.len());
    assert(slide.config.answers@.len() == slide.config.answers.len());
    only_the_correct_order_is_whole(given, correct);
    if slide.is_correct(answer) {
        assert(given.len() == correct.len());
        assert forall|i: int| 0 <= i < answer@.len() implies (#[trigger] answer@[i])@ == slide.config.answers@[i]@ by {
            assert(given[i] == correct[i]);
        }
    }
    if answer@.len() == slide.config.answers@.len() && forall|i: int|
        0 <= i < answer@.len() ==> (#[trigger] answer@[i])@ == slide.config.answers@[i]@ {
        assert forall|i: int| 0 <= i < given.len() implies given[i] == correct[i] by {
            assert(answer@[i]@ == slide.config.answers@[i]@);
        }
        assert(given =~= correct);
    }
}

proof fn lemma_in_place_moved(arranged: Seq<Seq<char>>, correct: Seq<Seq<char>>, at: int, item: Seq<char>, n: nat)
    requires
        0 <= at < arranged.len(),
        at < correct.len(),
        arranged[at] != correct[at],
        item == correct[at],
    ensures
        in_place(arranged.update(at, item), correct, n) == in_place(arranged, correct, n) + if at < n { 1int } else {
            0int
        },
    decreases n,
{
    if n > 0 {
        lemma_in_place_moved(arranged, correct, at, item, (n - 1) as nat);
    }
}

/// Putting one item where it belongs earns one part more, of as many parts as the longer of the two has
/// items.
pub proof fn every_item_in_place_counts(arranged: Seq<Seq<char>>, correct: Seq<Seq<char>>, at: int)
    requires
        arranged.len() <= usize::MAX,
        correct.len() <= usize::MAX,
        0 <= at < arranged.len(),
        at < correct.len(),
        arranged[at] != correct[at],
    ensures
        closeness(arranged.update(at, correct[at]), correct).numerator == closeness(arranged, correct).numerator + 1,
        closeness(arranged, correct).denominator == if arranged.len() >= correct.len() {
            arranged.len()
        } else {
            correct.len()
        },
{
    let better = arranged.update(at, correct[at]);
    let count = longer(arranged, correct);
    lemma_in_place_moved(arranged, correct, at, correct[at], count);
    lemma_in_place(better, correct, count);
    lemma_in_place(arranged, correct, count);
}

proof fn lemma_none_in_place(arranged: Seq<Seq<char>>, correct: Seq<Seq<char>>, n: nat)
    requires
        forall|i: int| 0 <= i < arranged.len() && i < correct.len() ==> arranged[i] != correct[i],
    ensures
        in_place(arranged, correct, n) == 0,
    decreases n,
{
    if n > 0 {
        lemma_none_in_place(arranged, correct, (n - 1) as nat);
    }
}

/// Nothing is earned where no item is where it belongs.
pub proof fn nothing_in_place_earns_nothing(arranged: Seq<Seq<char>>, correct: Seq<Seq<char>>)
    requires
        arranged.len() <= usize::MAX,
        correct.len() <= usize::MAX,
        arranged.len() > 0 || correct.len() > 0,
        forall|i: int| 0 <= i < arranged.len() && i < correct.len() ==> arranged[i] != correct[i],
    ensures
        closeness(arranged, correct).numerator == 0,
        closeness(arranged, correct).denominator == if arranged.len() >= correct.len() {
            arranged.len()
        } else {
            correct.len()
        },
{
    lemma_none_in_place(arranged, correct, longer(arranged, correct));
}

proof fn lemma_in_place_more(arranged: Seq<Seq<char>>, correct: Seq<Seq<char>>, item: Seq<char>, n: nat)
    requires
        arranged.len() >= correct.len(),
    ensures
        in_place(arranged.push(item), correct, n) == in_place(arranged, correct, n),
    decreases n,
{
    if n > 0 {
        lemma_in_place_more(arranged, correct, item, (n - 1) as nat);
    }
}

/// An item too many earns no part, and there is one part more to be had.
pub proof fn items_too_many_earn_nothing(arranged: Seq<Seq<char>>, correct: Seq<Seq<char>>, item: Seq<char>)
    requires
        arranged.len() < usize::MAX,
        0 < correct.len() <= arranged.len(),
    ensures
        closeness(arranged.push(item), correct).numerator == closeness(arranged, correct).numerator,
        closeness(arranged.push(item), correct).denominator == closeness(arranged, correct).denominator + 1,
{
    lemma_in_place_more(arranged, correct, item, (arranged.len() + 1) as nat);
    lemma_in_place(arranged, correct, arranged.len());
}

/// An order that is sent in is noted with its time, in place of an earlier one, and counted once; nothing
/// else happens to the answers, and any other message changes nothing.
pub proof fn answers_are_noted(
    before: State,
    after: State,
    watcher_id: Id,
    message: IncomingPlayerMessage,
    stage: Stage,
    effects: Seq<Effect>,
)
    requires
        before.answered(&after, watcher_id, message, stage, effects),
    ensures
        after.config == before.config,
        after.shuffled_answers == before.shuffled_answers,
        !(message is StringArrayAnswer) ==> after == before && effects.len() == 0,
        message matches IncomingPlayerMessage::StringArrayAnswer(answer) ==> {
            &&& after.book.answers().contains_key(watcher_id)
            &&& after.book.answers()[watcher_id].1 == stage.now
            &&& after.book.answers()[watcher_id].0 == answer
            &&& forall|other: Id|
                other != watcher_id ==> (#[trigger] after.book.answers().contains_key(other)
                    <==> before.book.answers().contains_key(other))
            &&& forall|other: Id|
                other != watcher_id && before.book.answers().contains_key(other)
                    ==> #[trigger] after.book.answers()[other] == before.book.answers()[other]
            &&& before.book.answers().contains_key(watcher_id) ==> after.book.live_answered_count
                == before.book.live_answered_count
            &&& !before.book.answers().contains_key(watcher_id) ==> after.book.live_answered_count
                == before.book.live_answered_count + 1
        },
{
}

/// The results are shown early exactly where everyone present has answered; until then the host may hear
/// how many have.
pub proof fn the_last_answer_brings_the_results(
    before: State,
    after: State,
    watcher_id: Id,
    message: IncomingPlayerMessage,
    stage: Stage,
    effects: Seq<Effect>,
)
    requires
        before.answered(&after, watcher_id, message, stage, effects),
        message is StringArrayAnswer,
    ensures
        after.core.answer_start == before.core.answer_start,
        before.core.state != SlideState::Answers ==> after.core.state == before.core.state,
        ({
            let answered = after.book.live_answered_count;
            let players = stage.watchers.present(ValueKind::Player).len();
            &&& before.core.state == SlideState::Answers ==> (after.core.state == SlideState::AnswersResults <==> players
                > 0 && answered >= players)
            &&& before.core.state == SlideState::Answers && after.core.state == SlideState::AnswersResults ==> {
                &&& effects.len() == 1
                &&& effects[0] matches Effect::Send {
                    to: Audience::Everyone,
                    message: crate::UpdateMessage::Order(UpdateMessage::AnswersResults { answers, results }),
                }
            }
            &&& (players == 0 || answered < players) ==> after.core.state == before.core.state && effects.len() <= 1
            &&& (players == 0 || answered < players) && effects.len() == 1 ==> effects[0] == (Effect::Send {
                to: Audience::Kind(ValueKind::Host),
                message: crate::UpdateMessage::Order(UpdateMessage::AnswersCount(answered)),
            })
            &&& (players == 0 || answered < players) && answered < 32 ==> effects.len() == 1
        }),
{
    let answer = message->StringArrayAnswer_0;
    let recorded = choose|recorded: State| #[trigger]
        before.recorded(recorded, watcher_id, answer, stage.now) && answer_followed_up(recorded, after, stage, effects);
    crate::fuiz::common::results_wait_for_everyone(
        recorded.book.live_answered_count,
        stage.watchers.present(ValueKind::Player).len(),
    );
}

/// The clock starts with the items, which go to everyone in some order; an alarm for the results follows
/// where there is a time limit.
pub proof fn items_start_the_clock(before: State, after: State, stage: Stage, effects: Seq<Effect>)
    requires
        before.entered(&after, SlideState::Answers, stage, effects),
        before.core.state == SlideState::Question,
    ensures
        after.core.state == SlideState::Answers,
        after.core.answer_start == Some(stage.now),
        after.config == before.config,
        after.book == before.book,
        after.shuffled_answers@.to_multiset() == before.config.answers@.to_multiset(),
        effects.len() == if before.config.time_limit is Some { 2int } else { 1int },
        ({
            &&& effects[0] matches Effect::Send {
                to: Audience::Everyone,
                message: crate::UpdateMessage::Order(UpdateMessage::AnswersAnnouncement { axis_labels, answers, duration }),
            }
            &&& axis_labels == before.config.axis_labels
            &&& answers@ == after.shuffled_answers@
            &&& duration == before.config.time_limit
        }),
        before.config.time_limit is Some ==> effects[1] == (Effect::Schedule {
            alarm: crate::AlarmMessage::Order(AlarmMessage { index: stage.index, to: SlideState::AnswersResults }),
            after: before.config.time_limit->0,
        }),
{
}

/// The question is shown for its time and the items follow then: at once after no time, and when the host
/// asks for them where no time is set.
pub proof fn the_question_stays_for_its_time(before: State, after: State, stage: Stage, effects: Seq<Effect>)
    requires
        before.entered(&after, SlideState::Question, stage, effects),
        before.core.state == SlideState::Unstarted,
    ensures
        effects.len() > 0,
        effects[0] == (Effect::Send {
            to: Audience::Everyone,
            message: crate::UpdateMessage::Order(
                UpdateMessage::QuestionAnnouncement {
                    index: stage.index,
                    count: stage.count,
                    question: before.config.title,
                    media: before.config.media,
                    duration: before.config.introduce_question,
                },
            ),
        }),
        before.config.introduce_question is None ==> after.core.state == SlideState::Question && effects.len() == 1,
        before.config.introduce_question matches Some(time) ==> if nanos(time) == 0 {
            after.core.state == SlideState::Answers && after.core.answer_start == Some(stage.now)
        } else {
            &&& after.core.state == SlideState::Question
            &&& after.core.answer_start == before.core.answer_start
            &&& effects.len() == 2
            &&& effects[1] == (Effect::Schedule {
                alarm: crate::AlarmMessage::Order(AlarmMessage { index: stage.index, to: SlideState::Answers }),
                after: time,
            })
        },
        after.config == before.config,
        after.book == before.book,
{
}

/// The results show the correct order, how many found it and how many did not; the answers stay.
pub proof fn results_show_the_order(before: State, after: State, stage: Stage, effects: Seq<Effect>)
    requires
        before.entered(&after, SlideState::AnswersResults, stage, effects),
        before.core.state == SlideState::Answers,
    ensures
        after.core.state == SlideState::AnswersResults,
        after.core.answer_start == before.core.answer_start,
        after.config == before.config,
        after.book == before.book,
        effects.len() == 1,
        ({
            &&& effects[0] matches Effect::Send {
                to: Audience::Everyone,
                message: crate::UpdateMessage::Order(UpdateMessage::AnswersResults { answers, results }),
            }
            &&& answers@ == before.config.answers@
            &&& results.0 == before.book.answers().dom().filter(
                |id: Id| before.is_correct(before.book.answers()[id].0),
            ).len()
            &&& results.0 + results.1 == before.book.answers().dom().len()
        }),
{
    assert(before.results_announced(effects[0]));
    assert(correct_answers(before) =~= before.book.answers().dom().filter(
        |id: Id| before.is_correct(before.book.answers()[id].0),
    ));
}

/// Whoever asks how things stand hears the time that is left: the time gone and the time left make up the
/// time limit until nothing is left.
pub proof fn the_time_left_is_told(slide: State, stage: Stage, message: SyncMessage, start: Timestamp)
    requires
        slide.is_state_message(stage, message),
        slide.core.answer_start == Some(start),
        stage.now.nanos_since_epoch >= start.nanos_since_epoch,
    ensures
        slide.core.state == SlideState::Answers <==> message is AnswersAnnouncement,
        slide.core.state == SlideState::AnswersResults <==> message is AnswersResults,
        message matches SyncMessage::AnswersAnnouncement {
            index,
            count,
            question,
            axis_labels,
            media,
            answers,
            duration,
        } ==> {
            let gone = stage.now.nanos_since_epoch - start.nanos_since_epoch;
            &&& index == stage.index && count == stage.count && question == slide.config.title
            &&& media == slide.config.media && axis_labels == slide.config.axis_labels
            &&& answers@ == slide.shuffled_answers@
            &&& duration is Some <==> slide.config.time_limit is Some
            &&& duration is Some && gone <= nanos(slide.config.time_limit->0) ==> nanos(duration->0) + gone == nanos(
                slide.config.time_limit->0,
            )
            &&& duration is Some && gone >= nanos(slide.config.time_limit->0) ==> nanos(duration->0) == 0
        },
{
}

/// A question is allowed where the length of its text, its picture, its times, the number of its items, their
/// lengths and those of the labels are; a time out of its range is told with that range.
pub proof fn questions_keep_the_limits(config: SlideConfig, settings: Settings)
    ensures
        ({
            let question = settings.question;
            config.problem(settings) is None <==> {
            &&& question.min_title_length <= config.title@.len() <= question.max_title_length
            &&& config.media matches Some(Media::Image(Image::Corkboard { id, alt })) ==> id@.len()
                == settings.corkboard.id_length && alt@.len() <= settings.corkboard.max_alt_length
            &&& config.introduce_question matches Some(time) ==> question.min_introduce_question * 1_000_000_000 <= nanos(
                time,
            ) <= question.max_introduce_question * 1_000_000_000
            &&& config.time_limit matches Some(time) ==> question.min_time_limit * 1_000_000_000 <= nanos(time)
                <= question.max_time_limit * 1_000_000_000
            &&& config.answers@.len() <= settings.order.max_answer_count
            &&& forall|i: int|
                0 <= i < config.answers@.len() ==> (#[trigger] config.answers@[i])@.len()
                    <= settings.answer_text.max_length
            &&& config.axis_labels.from matches Some(label) ==> label@.len() <= settings.order.max_label_length
            &&& config.axis_labels.to matches Some(label) ==> label@.len() <= settings.order.max_label_length
            }
        }),
        config.problem(settings) matches Some(Invalid::OutOfBounds { min, max }) ==> {
            let question = settings.question;
            ||| config.introduce_question is Some && min == question.min_introduce_question && max
                == question.max_introduce_question && !(min * 1_000_000_000 <= nanos(config.introduce_question->0)
                <= max * 1_000_000_000)
            ||| config.time_limit is Some && min == question.min_time_limit && max == question.max_time_limit && !(min
                * 1_000_000_000 <= nanos(config.time_limit->0) <= max * 1_000_000_000)
        },
        config.problem(settings) != Some(Invalid::Range),
{
}

// ---- what calls give ----

/// An order is judged correct where every item is where it belongs, and exactly then it earns everything.
pub proof fn orders_are_judged(slide: State, answer: Vec<String>, correct: bool, part: Multiplier)
    requires
        call_ensures(<State as AnswerHandler<Vec<String>>>::is_correct_answer, (&slide, &answer), correct),
        call_ensures(<State as AnswerHandler<Vec<String>>>::score_multiplier, (&slide, &answer), part),
    ensures
        correct <==> answer@.len() == slide.config.answers@.len() && forall|i: int|
            0 <= i < answer@.len() ==> (#[trigger] answer@[i])@ == slide.config.answers@[i]@,
        correct <==> part.numerator == part.denominator,
{
    every_item_has_to_be_in_place(slide, answer);
}

/// How close an order is counts its items that are where they belong, out of all.
pub proof fn items_in_place_are_counted(config: SlideConfig, arranged: Vec<String>, part: Multiplier)
    requires
        call_ensures(SlideConfig::compute_closeness, (&config, &arranged), part),
        arranged@.len() > 0 || config.answers@.len() > 0,
    ensures
        part.denominator == if arranged@.len() >= config.answers@.len() {
            arranged@.len()
        } else {
            config.answers@.len()
        },
        part.numerator == Set::new(
            |i: int| 0 <= i < arranged@.len() && i < config.answers@.len() && arranged@[i]@ == config.answers@[i]@,
        ).len(),
{
    let given = texts(arranged@);
    let correct = texts(config.answers@);
    let count = longer(given, correct);
    assert(arranged@.len() == arranged.len());
    assert(config.answers@.len() == config.answers.len());
    lemma_in_place(given, correct, count);
    lemma_in_place_set(given, correct, count);
    assert(Set::new(
        |i: int| 0 <= i < arranged@.len() && i < config.answers@.len() && arranged@[i]@ == config.answers@[i]@,
    ) =~= Set::new(|i: int| 0 <= i < count && i < given.len() && i < correct.len() && given[i] == correct[i]));
}

proof fn lemma_in_place_set(arranged: Seq<Seq<char>>, correct: Seq<Seq<char>>, n: nat)
    ensures
        Set::new(|i: int| 0 <= i < n && i < arranged.len() && i < correct.len() && arranged[i] == correct[i]).finite(),
        Set::new(|i: int| 0 <= i < n && i < arranged.len() && i < correct.len() && arranged[i] == correct[i]).len()
            == in_place(arranged, correct, n),
    decreases n,
{
    let all = Set::new(|i: int| 0 <= i < n && i < arranged.len() && i < correct.len() && arranged[i] == correct[i]);
    if n == 0 {
        assert(all =~= Set::<int>::empty());
    } else {
        let m = (n - 1) as nat;
        lemma_in_place_set(arranged, correct, m);
        let fewer = Set::new(
            |i: int| 0 <= i < m && i < arranged.len() && i < correct.len() && arranged[i] == correct[i],
        );
        if n <= arranged.len() && n <= correct.len() && arranged[n - 1] == correct[n - 1] {
            assert(all =~= fewer.insert(n - 1));
        } else {
            assert(all =~= fewer);
        }
    }
}

/// Whoever asks sees the screen of the phase: the question for the time that is left, the items as they are
/// shown, or the correct order with how many found it.
pub proof fn the_screen_is_told(slide: State, stage: Stage, message: SyncMessage)
    requires
        slide.is_state_message(stage, message),
    ensures
        match message {
            SyncMessage::QuestionAnnouncement { index, count, question, media, duration } => {
                &&& slide.core.state == SlideState::Question || slide.core.state == SlideState::Unstarted
                &&& index == stage.index && count == stage.count
                &&& question == slide.config.title && media == slide.config.media
                &&& duration is Some <==> slide.config.introduce_question is Some
                &&& duration is Some && slide.core.answer_start is None ==> nanos(duration->0) == nanos(
                    slide.config.introduce_question->0,
                )
            },
            SyncMessage::AnswersAnnouncement { index, count, question, axis_labels, media, answers, duration } => {
                &&& slide.core.state == SlideState::Answers
                &&& answers@ == slide.shuffled_answers@
            },
            SyncMessage::AnswersResults { index, count, question, axis_labels, media, answers, results } => {
                &&& slide.core.state == SlideState::AnswersResults
                &&& index == stage.index && count == stage.count
                &&& question == slide.config.title && media == slide.config.media
                &&& axis_labels == slide.config.axis_labels
                &&& answers@ == slide.config.answers@
                &&& results.0 == correct_answers(slide).len()
                &&& results.0 + results.1 == slide.book.answers().dom().len()
            },
        },
{
}

} // verus!
