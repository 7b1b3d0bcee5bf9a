//! The quiz and its slides.
use vstd::prelude::*;
use vstd::string::StrSliceExecFns;

use crate::fuiz::common::{message_taken, receive_message, AnswerHandler, PhasedSlide, SlideCore};
use crate::fuiz::media::{Image, Media};
use crate::fuiz::{common, multiple_choice, order, type_answer};
use crate::game::{IncomingHostMessage, IncomingMessage};
use crate::leaderboard::Leaderboard;
use crate::session::{Audience, Effect, Stage};
use crate::settings::{verdict, Invalid, Settings};
use crate::watcher::{Id, ValueKind};
use crate::{AlarmMessage, SyncMessage};

verus! {

/// A text or something to look at.
#[derive(Debug)]
pub enum TextOrMedia {
    /// Something to look at.
    Media(Media),
    /// A text.
    Text(String),
}

impl Clone for TextOrMedia {
    fn clone(&self) -> (copy: Self)
        ensures
            copy == *self,
    {
        match self {
            TextOrMedia::Media(media) => TextOrMedia::Media(media.clone()),
            TextOrMedia::Text(text) => TextOrMedia::Text(text.clone()),
        }
    }
}

impl TextOrMedia {
    /// What is wrong with it: a text has too many characters.
    pub open spec fn problem(&self, settings: Settings) -> Option<Invalid> {
        match self {
            TextOrMedia::Text(text) => if text@.len() > settings.answer_text.max_length {
                Some(Invalid::Length)
            } else {
                None
            },
            TextOrMedia::Media(_) => None,
        }
    }

    /// Tells what is wrong, if anything.
    pub fn validate_with(&self, settings: &Settings) -> (result: Result<(), Invalid>)
        ensures
            result == verdict(self.problem(*settings)),
    {
        match self {
            TextOrMedia::Text(text) => if text.as_str().unicode_len() > settings.answer_text.max_length {
                Err(Invalid::Length)
            } else {
                Ok(())
            },
            TextOrMedia::Media(_) => Ok(()),
        }
    }
}

/// A slide, of any kind.
#[derive(Debug)]
pub enum SlideConfig {
    /// Multiple choice.
    MultipleChoice(multiple_choice::SlideConfig),
    /// Typed answers.
    TypeAnswer(type_answer::SlideConfig),
    /// An order.
    Order(order::SlideConfig),
}

impl Clone for SlideConfig {
    fn clone(&self) -> (copy: Self)
        ensures
            copy.same(self),
    {
        match self {
            SlideConfig::MultipleChoice(config) => SlideConfig::MultipleChoice(config.clone()),
            SlideConfig::TypeAnswer(config) => SlideConfig::TypeAnswer(config.clone()),
            SlideConfig::Order(config) => SlideConfig::Order(config.clone()),
        }
    }
}

impl SlideConfig {
    /// Whether the two are the same slide.
    pub open spec fn same(&self, other: &Self) -> bool {
        match (self, other) {
            (SlideConfig::MultipleChoice(a), SlideConfig::MultipleChoice(b)) => a.same(b),
            (SlideConfig::TypeAnswer(a), SlideConfig::TypeAnswer(b)) => a.same(b),
            (SlideConfig::Order(a), SlideConfig::Order(b)) => a.same(b),
            _ => false,
        }
    }

    /// The first limit that the slide breaks.
    pub open spec fn problem(&self, settings: Settings) -> Option<Invalid> {
        match self {
            SlideConfig::MultipleChoice(config) => config.problem(settings),
            SlideConfig::TypeAnswer(config) => config.problem(settings),
            SlideConfig::Order(config) => config.problem(settings),
        }
    }

    /// Tells what is wrong with the slide, if anything.
    pub fn validate_with(&self, settings: &Settings) -> (result: Result<(), Invalid>)
        ensures
            result == verdict(self.problem(*settings)),
    {
        match self {
            SlideConfig::MultipleChoice(config) => config.validate_with(settings),
            SlideConfig::TypeAnswer(config) => config.validate_with(settings),
            SlideConfig::Order(config) => config.validate_with(settings),
        }
    }

    /// The slide before it starts.
    pub fn to_state(&self) -> (state: SlideState)
        ensures
            state.wf(),
            state.is_fresh(*self),
    {
        match self {
            SlideConfig::MultipleChoice(config) => SlideState::MultipleChoice(config.to_state()),
            SlideConfig::TypeAnswer(config) => SlideState::TypeAnswer(config.to_state()),
            SlideConfig::Order(config) => SlideState::Order(config.to_state()),
        }
    }
}

/// A quiz.
#[derive(Debug)]
pub struct Fuiz {
    /// What it is called.
    pub title: String,
    /// The slides, in order.
    pub slides: Vec<SlideConfig>,
}

impl Default for Fuiz {
    fn default() -> (fuiz: Self)
        ensures
            fuiz.title@ == Seq::<char>::empty(),
            fuiz.slides@ == Seq::<SlideConfig>::empty(),
    {
        Fuiz { title: String::new(), slides: Vec::new() }
    }
}

impl Clone for Fuiz {
    fn clone(&self) -> (copy: Self)
        ensures
            copy.same(self),
    {
        let mut slides: Vec<SlideConfig> = Vec::new();
        let mut i: usize = 0;
        while i < self.slides.len()
            invariant
                i <= self.slides.len(),
                slides.len() == i,
                forall|j: int| 0 <= j < i ==> (#[trigger] slides[j]).same(&self.slides[j]),
            decreases self.slides.len() - i,
        {
            slides.push(self.slides[i].clone());
            i = i + 1;
        }
        Fuiz { title: self.title.clone(), slides }
    }
}

impl Fuiz {
    /// Whether the two are the same quiz.
    pub open spec fn same(&self, other: &Self) -> bool {
        &&& self.title == other.title
        &&& self.slides.len() == other.slides.len()
        &&& forall|i: int| 0 <= i < self.slides.len() ==> (#[trigger] self.slides[i]).same(&other.slides[i])
    }

    /// The number of slides.
    pub fn len(&self) -> (count: usize)
        ensures
            count == self.slides@.len(),
    {
        self.slides.len()
    }

    /// Whether there are no slides.
    pub fn is_empty(&self) -> (empty: bool)
        ensures
            empty <==> self.slides@.len() == 0,
    {
        self.slides.len() == 0
    }

    /// The first limit that a slide from number `i` on breaks.
    pub open spec fn slide_problem(&self, settings: Settings, i: int) -> Option<Invalid>
        decreases self.slides@.len() - i,
    {
        if 0 <= i < self.slides@.len() {
            if self.slides@[i].problem(settings) is Some {
                self.slides@[i].problem(settings)
            } else {
                self.slide_problem(settings, i + 1)
            }
        } else {
            None
        }
    }

    /// The first limit that the quiz breaks.
    pub open spec fn problem(&self, settings: Settings) -> Option<Invalid> {
        if self.title@.len() > settings.fuiz.max_title_length || self.slides@.len() > settings.fuiz.max_slides_count {
            Some(Invalid::Length)
        } else {
            self.slide_problem(settings, 0)
        }
    }

    /// Tells what is wrong with the quiz, if anything.
    pub fn validate_with(&self, settings: &Settings) -> (result: Result<(), Invalid>)
        ensures
            result == verdict(self.problem(*settings)),
    {
        if self.title.as_str().unicode_len() > settings.fuiz.max_title_length || self.slides.len()
            > settings.fuiz.max_slides_count {
            return Err(Invalid::Length);
        }
        let mut i: usize = 0;
        while i < self.slides.len()
            invariant
                i <= self.slides.len(),
                self.slide_problem(*settings, 0) == self.slide_problem(*settings, i as int),
                self.problem(*settings) == self.slide_problem(*settings, 0),
            decreases self.slides.len() - i,
        {
            let result = self.slides[i].validate_with(settings);
            if result.is_err() {
                return result;
            }
            i = i + 1;
        }
        Ok(())
    }
}

/// The slide that is shown.
#[derive(Debug)]
pub struct CurrentSlide {
    /// Its number, from zero on.
    pub index: usize,
    /// How it stands.
    pub state: SlideState,
}

/// A slide while it is shown, of any kind.
#[derive(Debug)]
pub enum SlideState {
    /// Multiple choice.
    MultipleChoice(multiple_choice::State),
    /// Typed answers.
    TypeAnswer(type_answer::State),
    /// An order.
    Order(order::State),
}

/// What becomes of the current slide.
#[derive(Copy, Clone, Debug, PartialEq, Eq, Structural)]
pub enum SlideAction {
    /// It is over.
    Next,
    /// It stays.
    Stay,
}

impl SlideState {
    /// What always holds of it.
    pub open spec fn wf(&self) -> bool {
        match self {
            SlideState::MultipleChoice(slide) => slide.wf(),
            SlideState::TypeAnswer(slide) => slide.wf(),
            SlideState::Order(slide) => slide.wf(),
        }
    }

    /// How many of those who answered are still there.
    pub open spec fn live(&self) -> usize {
        match self {
            SlideState::MultipleChoice(slide) => slide.book.live_answered_count,
            SlideState::TypeAnswer(slide) => slide.book.live_answered_count,
            SlideState::Order(slide) => slide.book.live_answered_count,
        }
    }

    /// Whether there is an answer of someone.
    pub open spec fn has_answer_of(&self, id: Id) -> bool {
        match self {
            SlideState::MultipleChoice(slide) => slide.book.answers().contains_key(id),
            SlideState::TypeAnswer(slide) => slide.book.answers().contains_key(id),
            SlideState::Order(slide) => slide.book.answers().contains_key(id),
        }
    }

    /// Where it is on its way.
    pub open spec fn phase(&self) -> common::SlideState {
        match self {
            SlideState::MultipleChoice(slide) => slide.core.state,
            SlideState::TypeAnswer(slide) => slide.core.state,
            SlideState::Order(slide) => slide.core.state,
        }
    }

    /// Whether it is the slide before it starts.
    pub open spec fn is_fresh(&self, config: SlideConfig) -> bool {
        let start = SlideCore { state: common::SlideState::Unstarted, answer_start: None };
        match (*self, config) {
            (SlideState::MultipleChoice(slide), SlideConfig::MultipleChoice(config)) => {
                &&& slide.config.same(&config)
                &&& slide.book.answers().dom() == Set::<Id>::empty()
                &&& slide.book.live_answered_count == 0
                &&& slide.core == start
            },
            (SlideState::TypeAnswer(slide), SlideConfig::TypeAnswer(config)) => {
                &&& slide.config.same(&config)
                &&& slide.book.answers().dom() == Set::<Id>::empty()
                &&& slide.book.live_answered_count == 0
                &&& slide.core == start
            },
            (SlideState::Order(slide), SlideConfig::Order(config)) => {
                &&& slide.config.same(&config)
                &&& slide.shuffled_answers@.len() == 0
                &&& slide.book.answers().dom() == Set::<Id>::empty()
                &&& slide.book.live_answered_count == 0
                &&& slide.core == start
            },
            _ => false,
        }
    }

    /// Whether starting the slide leads from here to `after`, with these effects.
    pub open spec fn played(&self, after: SlideState, stage: Stage, effects: Seq<Effect>) -> bool {
        match (*self, after) {
            (SlideState::MultipleChoice(a), SlideState::MultipleChoice(b)) => a.announced(&b, stage, effects),
            (SlideState::TypeAnswer(a), SlideState::TypeAnswer(b)) => a.announced(&b, stage, effects),
            (SlideState::Order(a), SlideState::Order(b)) => a.entered_question(&b, stage, effects),
            _ => false,
        }
    }

    /// Starts the slide.
    pub fn play(&mut self, stage: &Stage) -> (effects: Vec<Effect>)
        requires
            old(self).wf(),
            stage.wf(),
        ensures
            final(self).wf(),
            old(self).played(*final(self), *stage, effects@),
            final(self).live() == old(self).live(),
    {
        match self {
            SlideState::MultipleChoice(slide) => slide.play(stage),
            SlideState::TypeAnswer(slide) => slide.play(stage),
            SlideState::Order(slide) => slide.play(stage),
        }
    }

    /// Whether a message leads from here to `after`, with this action and these effects.
    pub open spec fn took_message(
        &self,
        after: SlideState,
        watcher_id: Id,
        message: IncomingMessage,
        stage: Stage,
        points_before: Leaderboard,
        points_after: Leaderboard,
        action: SlideAction,
        effects: Seq<Effect>,
    ) -> bool {
        match (*self, after) {
            (SlideState::MultipleChoice(a), SlideState::MultipleChoice(b)) => message_taken(
                a,
                b,
                watcher_id,
                message,
                stage,
                points_before,
                points_after,
                action,
                effects,
            ),
            (SlideState::TypeAnswer(a), SlideState::TypeAnswer(b)) => message_taken(
                a,
                b,
                watcher_id,
                message,
                stage,
                points_before,
                points_after,
                action,
                effects,
            ),
            (SlideState::Order(a), SlideState::Order(b)) => message_taken(
                a,
                b,
                watcher_id,
                message,
                stage,
                points_before,
                points_after,
                action,
                effects,
            ),
            _ => false,
        }
    }

    /// Takes a message.
    pub fn receive_message(
        &mut self,
        watcher_id: Id,
        message: IncomingMessage,
        leaderboard: &mut Leaderboard,
        stage: &Stage,
    ) -> (result: (SlideAction, Vec<Effect>))
        requires
            old(self).wf(),
            stage.wf(),
            old(leaderboard).wf(),
            old(self).live() < usize::MAX,
        ensures
            final(self).wf(),
            final(leaderboard).wf(),
            old(self).took_message(
                *final(self),
                watcher_id,
                message,
                *stage,
                *old(leaderboard),
                *final(leaderboard),
                result.0,
                result.1@,
            ),
    {
        match self {
            SlideState::MultipleChoice(slide) => receive_message::<Vec<usize>, multiple_choice::State>(
                slide,
                watcher_id,
                message,
                leaderboard,
                stage,
            ),
            SlideState::TypeAnswer(slide) => receive_message::<String, type_answer::State>(
                slide,
                watcher_id,
                message,
                leaderboard,
                stage,
            ),
            SlideState::Order(slide) => receive_message::<Vec<String>, order::State>(
                slide,
                watcher_id,
                message,
                leaderboard,
                stage,
            ),
        }
    }

    /// Whether `message` tells a participant how things stand.
    pub open spec fn is_state_message(&self, id: Id, kind: ValueKind, stage: Stage, message: SyncMessage) -> bool {
        match (*self, message) {
            (SlideState::MultipleChoice(slide), SyncMessage::MultipleChoice(message)) => slide.is_state_message(
                id,
                kind,
                stage,
                message,
            ),
            (SlideState::TypeAnswer(slide), SyncMessage::TypeAnswer(message)) => slide.is_state_message(stage, message),
            (SlideState::Order(slide), SyncMessage::Order(message)) => slide.is_state_message(stage, message),
            _ => false,
        }
    }

    /// Tells a participant how things stand.
    pub fn state_message(&self, watcher_id: Id, watcher_kind: ValueKind, stage: &Stage) -> (message: SyncMessage)
        ensures
            self.is_state_message(watcher_id, watcher_kind, *stage, message),
    {
        match self {
            SlideState::MultipleChoice(slide) => SyncMessage::MultipleChoice(
                slide.state_message(watcher_id, watcher_kind, stage),
            ),
            SlideState::TypeAnswer(slide) => SyncMessage::TypeAnswer(slide.state_message(stage)),
            SlideState::Order(slide) => SyncMessage::Order(slide.state_message(stage)),
        }
    }

    /// Whether an alarm leads from here to `after`, with these effects; one for another kind of slide
    /// does nothing.
    pub open spec fn took_alarm(&self, after: SlideState, alarm: AlarmMessage, stage: Stage, effects: Seq<Effect>) -> bool {
        match (*self, after, alarm) {
            (SlideState::MultipleChoice(a), SlideState::MultipleChoice(b), AlarmMessage::MultipleChoice(alarm)) => a.entered(
                &b,
                alarm.to,
                stage,
                effects,
            ),
            (SlideState::TypeAnswer(a), SlideState::TypeAnswer(b), AlarmMessage::TypeAnswer(alarm)) => a.entered(
                &b,
                alarm.to,
                stage,
                effects,
            ),
            (SlideState::Order(a), SlideState::Order(b), AlarmMessage::Order(alarm)) => a.entered(
                &b,
                alarm.to,
                stage,
                effects,
            ),
            _ => after == *self && effects.len() == 0,
        }
    }

    /// Takes an alarm.
    pub fn receive_alarm(&mut self, message: &AlarmMessage, stage: &Stage) -> (result: (SlideAction, Vec<Effect>))
        requires
            old(self).wf(),
            stage.wf(),
        ensures
            final(self).wf(),
            result.0 == SlideAction::Stay,
            old(self).took_alarm(*final(self), *message, *stage, result.1@),
    {
        match self {
            SlideState::MultipleChoice(slide) => slide.receive_alarm(message, stage),
            SlideState::TypeAnswer(slide) => slide.receive_alarm(message, stage),
            SlideState::Order(slide) => slide.receive_alarm(message, stage),
        }
    }

    /// Whether the slide is in order.
    pub fn is_sound(&self) -> (sound: bool)
        ensures
            sound == self.wf(),
    {
        match self {
            SlideState::MultipleChoice(slide) => slide.is_sound(),
            SlideState::TypeAnswer(slide) => slide.is_sound(),
            SlideState::Order(_) => true,
        }
    }

    /// How many of those who answered are still there.
    pub fn live_count(&self) -> (count: usize)
        ensures
            count == self.live(),
    {
        match self {
            SlideState::MultipleChoice(slide) => slide.book.live_answered_count,
            SlideState::TypeAnswer(slide) => slide.book.live_answered_count,
            SlideState::Order(slide) => slide.book.live_answered_count,
        }
    }

    /// Whether `after` is this slide with the count of those who answered and are still there changed.
    pub open spec fn recounted(&self, after: SlideState, live: int) -> bool {
        match (*self, after) {
            (SlideState::MultipleChoice(a), SlideState::MultipleChoice(b)) => {
                &&& b.config == a.config
                &&& b.core == a.core
                &&& b.book.user_answers == a.book.user_answers
                &&& b.book.live_answered_count == live
            },
            (SlideState::TypeAnswer(a), SlideState::TypeAnswer(b)) => {
                &&& b.config == a.config
                &&& b.core == a.core
                &&& b.cleaned_answers == a.cleaned_answers
                &&& b.book.user_answers == a.book.user_answers
                &&& b.book.live_answered_count == live
            },
            (SlideState::Order(a), SlideState::Order(b)) => {
                &&& b.config == a.config
                &&& b.core == a.core
                &&& b.shuffled_answers == a.shuffled_answers
                &&& b.book.user_answers == a.book.user_answers
                &&& b.book.live_answered_count == live
            },
            _ => false,
        }
    }

    /// Takes a participant who leaves out of the count, if there is an answer.
    pub fn mark_watcher_left(&mut self, id: Id)
        requires
            old(self).wf(),
        ensures
            final(self).wf(),
            old(self).recounted(
                *final(self),
                if old(self).has_answer_of(id) && old(self).live() > 0 {
                    old(self).live() - 1
                } else {
                    old(self).live() as int
                },
            ),
    {
        match self {
            SlideState::MultipleChoice(slide) => slide.book.mark_watcher_left(id),
            SlideState::TypeAnswer(slide) => slide.book.mark_watcher_left(id),
            SlideState::Order(slide) => slide.book.mark_watcher_left(id),
        }
    }

    /// Puts a participant who returns back into the count, if there is an answer.
    pub fn mark_watcher_returned(&mut self, id: Id)
        requires
            old(self).wf(),
            old(self).live() < usize::MAX,
        ensures
            final(self).wf(),
            old(self).recounted(
                *final(self),
                if old(self).has_answer_of(id) {
                    old(self).live() + 1
                } else {
                    old(self).live() as int
                },
            ),
    {
        match self {
            SlideState::MultipleChoice(slide) => slide.book.mark_watcher_returned(id),
            SlideState::TypeAnswer(slide) => slide.book.mark_watcher_returned(id),
            SlideState::Order(slide) => slide.book.mark_watcher_returned(id),
        }
    }
}

// ---- what players can count on ----

/// A quiz is allowed where its title is not too long, it has not too many slides, and every slide is
/// allowed; else it is told what is wrong with the first slide that is not.
pub proof fn quizzes_keep_the_limits(fuiz: Fuiz, settings: Settings)
    ensures
        fuiz.problem(settings) is None <==> {
            &&& fuiz.title@.len() <= settings.fuiz.max_title_length
            &&& fuiz.slides@.len() <= settings.fuiz.max_slides_count
            &&& forall|i: int| 0 <= i < fuiz.slides@.len() ==> (#[trigger] fuiz.slides@[i]).problem(settings) is None
        },
        fuiz.title@.len() > settings.fuiz.max_title_length || fuiz.slides@.len() > settings.fuiz.max_slides_count
            ==> fuiz.problem(settings) == Some(Invalid::Length),
        forall|i: int|
            0 <= i < fuiz.slides@.len() && (#[trigger] fuiz.slides@[i]).problem(settings) is Some && (forall|j: int|
                0 <= j < i ==> (#[trigger] fuiz.slides@[j]).problem(settings) is None) && fuiz.title@.len()
                <= settings.fuiz.max_title_length && fuiz.slides@.len() <= settings.fuiz.max_slides_count
                ==> fuiz.problem(settings) == fuiz.slides@[i].problem(settings),
{
    lemma_slide_problem(fuiz, settings, 0);
}

proof fn lemma_slide_problem(fuiz: Fuiz, settings: Settings, from: int)
    requires
        0 <= from <= fuiz.slides@.len(),
    ensures
        fuiz.slide_problem(settings, from) is None <==> forall|i: int|
            from <= i < fuiz.slides@.len() ==> (#[trigger] fuiz.slides@[i]).problem(settings) is None,
        forall|i: int|
            from <= i < fuiz.slides@.len() && (#[trigger] fuiz.slides@[i]).problem(settings) is Some && (forall|j: int|
                from <= j < i ==> (#[trigger] fuiz.slides@[j]).problem(settings) is None) ==> fuiz.slide_problem(
                settings,
                from,
            ) == fuiz.slides@[i].problem(settings),
    decreases fuiz.slides@.len() - from,
{
    if from < fuiz.slides@.len() {
        lemma_slide_problem(fuiz, settings, from + 1);
        if fuiz.slides@[from].problem(settings) is Some {
            assert forall|i: int|
                from <= i < fuiz.slides@.len() && (#[trigger] fuiz.slides@[i]).problem(settings) is Some && (forall|
                    j: int,
                | from <= j < i ==> (#[trigger] fuiz.slides@[j]).problem(settings) is None) implies i == from by {
                if i > from {
                    assert(fuiz.slides@[from].problem(settings) is None);
                }
            }
        }
    }
}

/// A slide is allowed by the limits of its kind.
pub proof fn slides_keep_the_limits_of_their_kind(config: SlideConfig, settings: Settings)
    ensures
        config matches SlideConfig::MultipleChoice(question) ==> config.problem(settings) == question.problem(settings),
        config matches SlideConfig::TypeAnswer(question) ==> config.problem(settings) == question.problem(settings),
        config matches SlideConfig::Order(question) ==> config.problem(settings) == question.problem(settings),
{
}

/// A choice is allowed where it is no text of too many characters, and a picture where its identifier has
/// the right length and there are not too many words with it.
pub proof fn choices_keep_the_limits(choice: TextOrMedia, picture: Media, settings: Settings)
    ensures
        choice.problem(settings) is None <==> (choice matches TextOrMedia::Text(text) ==> text@.len()
            <= settings.answer_text.max_length),
        picture.problem(settings.corkboard) is None <==> (picture matches Media::Image(Image::Corkboard { id, alt })
            && id@.len() == settings.corkboard.id_length && alt@.len() <= settings.corkboard.max_alt_length),
{
}

/// A slide stays of its kind, and no answer of a player ends the phase in which answers are taken while
/// fewer have answered than there are players.
pub proof fn answers_are_taken_until_everyone_answered(
    before: SlideState,
    after: SlideState,
    watcher_id: Id,
    message: IncomingMessage,
    stage: Stage,
    points_before: Leaderboard,
    points_after: Leaderboard,
    action: SlideAction,
    effects: Seq<Effect>,
)
    requires
        before.took_message(
            after,
            watcher_id,
            message,
            stage,
            points_before,
            points_after,
            action,
            effects,
        ),
        message is Player,
    ensures
        before is MultipleChoice <==> after is MultipleChoice,
        before is TypeAnswer <==> after is TypeAnswer,
        before is Order <==> after is Order,
        action == SlideAction::Stay,
        points_after == points_before,
        after.phase() != before.phase() ==> {
            &&& before.phase() == common::SlideState::Answers
            &&& after.phase() == common::SlideState::AnswersResults
            &&& stage.watchers.present(ValueKind::Player).len() > 0
            &&& after.live() >= stage.watchers.present(ValueKind::Player).len()
        },
        before.phase() == common::SlideState::Answers && after != before && stage.watchers.present(
            ValueKind::Player,
        ).len() > 0 && after.live() >= stage.watchers.present(ValueKind::Player).len() ==> after.phase()
            == common::SlideState::AnswersResults,
        before.live() <= after.live() <= before.live() + 1,
{
    match (before, after, message) {
        (SlideState::MultipleChoice(a), SlideState::MultipleChoice(b), IncomingMessage::Player(answer)) => {
            multiple_choice::answers_are_noted(a, b, watcher_id, answer, stage, effects);
            if multiple_choice::is_an_answer(a.config, answer) {
                multiple_choice::the_last_answer_brings_the_results(a, b, watcher_id, answer, stage, effects);
            }
        },
        (SlideState::TypeAnswer(a), SlideState::TypeAnswer(b), IncomingMessage::Player(answer)) => {
            type_answer::answers_are_noted(a, b, watcher_id, answer, stage, effects);
            if answer is StringAnswer {
                type_answer::the_last_answer_brings_the_results(a, b, watcher_id, answer, stage, effects);
            }
        },
        (SlideState::Order(a), SlideState::Order(b), IncomingMessage::Player(answer)) => {
            order::answers_are_noted(a, b, watcher_id, answer, stage, effects);
            if answer is StringArrayAnswer {
                order::the_last_answer_brings_the_results(a, b, watcher_id, answer, stage, effects);
            }
        },
        _ => {},
    }
}

/// The host moves a slide on by one phase, further only where the next one takes no time, and past the
/// slide from the results; then, and only then, points are given.
pub proof fn the_host_moves_on(
    before: SlideState,
    after: SlideState,
    watcher_id: Id,
    stage: Stage,
    points_before: Leaderboard,
    points_after: Leaderboard,
    action: SlideAction,
    effects: Seq<Effect>,
)
    requires
        before.took_message(
            after,
            watcher_id,
            IncomingMessage::Host(IncomingHostMessage::Next),
            stage,
            points_before,
            points_after,
            action,
            effects,
        ),
    ensures
        before is MultipleChoice <==> after is MultipleChoice,
        before is TypeAnswer <==> after is TypeAnswer,
        before is Order <==> after is Order,
        action == SlideAction::Next <==> before.phase() == common::SlideState::AnswersResults,
        before.phase() == common::SlideState::AnswersResults ==> after == before && effects.len() == 0
            && points_after.history().len() == points_before.history().len() + 1,
        before.phase() != common::SlideState::AnswersResults ==> points_after == points_before,
        before.phase() == common::SlideState::Answers ==> after.phase() == common::SlideState::AnswersResults,
        before.phase() == common::SlideState::Question ==> after.phase() == common::SlideState::Answers,
        before.phase() == common::SlideState::Unstarted ==> after.phase() == common::SlideState::Question
            || after.phase() == common::SlideState::Answers,
{
}

/// An alarm moves on a slide of its own kind only, by one phase, and never an earlier one back.
pub proof fn alarms_move_on(before: SlideState, after: SlideState, alarm: AlarmMessage, stage: Stage, effects: Seq<Effect>)
    requires
        before.took_alarm(after, alarm, stage, effects),
        match alarm {
            AlarmMessage::MultipleChoice(alarm) => alarm.to != common::SlideState::Unstarted,
            AlarmMessage::TypeAnswer(alarm) => alarm.to != common::SlideState::Unstarted,
            AlarmMessage::Order(alarm) => alarm.to != common::SlideState::Unstarted,
        },
    ensures
        before is MultipleChoice <==> after is MultipleChoice,
        before is TypeAnswer <==> after is TypeAnswer,
        before is Order <==> after is Order,
        before is MultipleChoice && !(alarm is MultipleChoice) ==> after == before && effects.len() == 0,
        before is TypeAnswer && !(alarm is TypeAnswer) ==> after == before && effects.len() == 0,
        before is Order && !(alarm is Order) ==> after == before && effects.len() == 0,
        after.live() == before.live(),
        after.phase() == before.phase() ==> after == before && effects.len() == 0,
        after.phase() != before.phase() ==> {
            let to = match alarm {
                AlarmMessage::MultipleChoice(alarm) => alarm.to,
                AlarmMessage::TypeAnswer(alarm) => alarm.to,
                AlarmMessage::Order(alarm) => alarm.to,
            };
            &&& to == common::SlideState::AnswersResults <==> before.phase() == common::SlideState::Answers
            &&& to == common::SlideState::Answers <==> before.phase() == common::SlideState::Question
            &&& to == common::SlideState::Question <==> before.phase() == common::SlideState::Unstarted
            &&& after.phase() == to || (to == common::SlideState::Question && after.phase()
                == common::SlideState::Answers)
        },
{
}

/// Someone who leaves or returns changes only the count of those who answered and are there.
pub proof fn recounting_changes_the_count_only(before: SlideState, after: SlideState, live: int, id: Id)
    requires
        before.recounted(after, live),
    ensures
        after.live() == live,
        after.phase() == before.phase(),
        after.has_answer_of(id) <==> before.has_answer_of(id),
        before is MultipleChoice <==> after is MultipleChoice,
        before is TypeAnswer <==> after is TypeAnswer,
        before is Order <==> after is Order,
{
}

/// Whoever has an answer in the book of a slide has answered it; its count and phase are those of its book
/// and of its way.
pub proof fn slides_know_their_answers(slide: SlideState, id: Id)
    ensures
        slide matches SlideState::MultipleChoice(state) ==> {
            &&& slide.has_answer_of(id) <==> state.book.answers().contains_key(id)
            &&& slide.live() == state.book.live_answered_count
            &&& slide.phase() == state.core.state
        },
        slide matches SlideState::TypeAnswer(state) ==> {
            &&& slide.has_answer_of(id) <==> state.book.answers().contains_key(id)
            &&& slide.live() == state.book.live_answered_count
            &&& slide.phase() == state.core.state
        },
        slide matches SlideState::Order(state) ==> {
            &&& slide.has_answer_of(id) <==> state.book.answers().contains_key(id)
            &&& slide.live() == state.book.live_answered_count
            &&& slide.phase() == state.core.state
        },
{
}

/// A slide starts with the announcement of what the quiz says of it, and keeps that.
pub proof fn slides_start_as_the_quiz_says(
    config: SlideConfig,
    fresh: SlideState,
    started: SlideState,
    stage: Stage,
    effects: Seq<Effect>,
)
    requires
        fresh.is_fresh(config),
        fresh.played(started, stage, effects),
    ensures
        effects.len() > 0,
        config matches SlideConfig::MultipleChoice(question) ==> {
            &&& started matches SlideState::MultipleChoice(state)
            &&& state.config.title == question.title
            &&& state.config.points_awarded == question.points_awarded
            &&& state.config.time_limit == question.time_limit
            &&& state.config.answers@ == question.answers@
            &&& state.config.answer_mode == question.answer_mode
            &&& effects[0] == (Effect::Send {
                to: Audience::Everyone,
                message: crate::UpdateMessage::MultipleChoice(
                    multiple_choice::UpdateMessage::SlideAnnouncement {
                        index: stage.index,
                        count: stage.count,
                        points_awarded: question.points_awarded,
                        duration: question.introduce_slide,
                    },
                ),
            })
        },
        config matches SlideConfig::TypeAnswer(question) ==> {
            &&& started matches SlideState::TypeAnswer(state)
            &&& state.config.title == question.title
            &&& state.config.points_awarded == question.points_awarded
            &&& state.config.time_limit == question.time_limit
            &&& state.config.answers@ == question.answers@
            &&& state.config.case_sensitive == question.case_sensitive
            &&& effects[0] == (Effect::Send {
                to: Audience::Everyone,
                message: crate::UpdateMessage::TypeAnswer(
                    type_answer::UpdateMessage::SlideAnnouncement {
                        index: stage.index,
                        count: stage.count,
                        points_awarded: question.points_awarded,
                        duration: question.introduce_slide,
                    },
                ),
            })
        },
        config matches SlideConfig::Order(question) ==> {
            &&& started matches SlideState::Order(state)
            &&& state.config.title == question.title
            &&& state.config.points_awarded == question.points_awarded
            &&& state.config.time_limit == question.time_limit
            &&& state.config.answers@ == question.answers@
            &&& effects[0] == (Effect::Send {
                to: Audience::Everyone,
                message: crate::UpdateMessage::Order(
                    order::UpdateMessage::QuestionAnnouncement {
                        index: stage.index,
                        count: stage.count,
                        question: question.title,
                        media: question.media,
                        duration: question.introduce_question,
                    },
                ),
            })
        },
{
}

} // verus!
