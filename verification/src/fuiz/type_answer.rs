//! Slides on which answers are typed.
use std::time::Duration;

use vstd::prelude::*;
use vstd::string::StrSliceExecFns;

use crate::fuiz::common::{
    answer_followed_up, default_receive_alarm, handle_post_answer, is_zero, AnswerBook, AnswerHandler, Multiplier,
    PhasedSlide, ProceedFromSlideIntoSlide, QuestionReceiveMessage, SlideCore, SlideState, SlideStateManager,
    SlideTimer,
};
use crate::fuiz::config::SlideAction;
use crate::fuiz::media::{copy_media, Image, Media};
use crate::fuiz::order::{any_too_long, some_too_long};
use crate::game::IncomingPlayerMessage;
use crate::seqs::{lemma_count_keys, lemma_filter_take};
use crate::session::{Audience, Effect, Stage};
use crate::settings::{verdict, within, Invalid, Settings};
use crate::texts::{are_distinct, copy_texts, has_text, has_texts, texts};
use crate::time::{nanos, Timestamp};
use crate::watcher::{Id, ValueKind};

verus! {

/// Where a slide is on its way.
pub type Phase = SlideState;

/// An alarm that moves a slide on.
pub type AlarmMessage = ProceedFromSlideIntoSlide;

/// Whether a character has the Unicode property `White_Space`.
pub uninterp spec fn is_white_space(c: char) -> bool;

/// `text` from its first character that is not white space on.
pub open spec fn stripped_start(text: Seq<char>) -> Seq<char>
    decreases text.len(),
{
    if text.len() > 0 && is_white_space(text.first()) {
        stripped_start(text.drop_first())
    } else {
        text
    }
}

/// `text` up to its last character that is not white space.
pub open spec fn stripped_end(text: Seq<char>) -> Seq<char>
    decreases text.len(),
{
    if text.len() > 0 && is_white_space(text.last()) {
        stripped_end(text.drop_last())
    } else {
        text
    }
}

/// `text` without the white space around it.
pub open spec fn stripped(text: Seq<char>) -> Seq<char> {
    stripped_end(stripped_start(text))
}

/// `str::trim`: the text without the white space around it.
#[verifier::external_body]
fn trim(text: &str) -> (rest: &str)
    ensures
        rest@ == stripped(text@),
        rest@.len() > 0 ==> !is_white_space(rest@.last()),
{
    text.trim()
}

/// What `str::to_lowercase` makes of a text.
pub uninterp spec fn lowercase(text: Seq<char>) -> Seq<char>;

/// `str::to_lowercase`: the text in lower case, by the rules of Unicode.
#[verifier::external_body]
fn to_lowercase(text: &str) -> (lower: String)
    ensures
        lower@ == lowercase(text@),
{
    text.to_lowercase()
}

/// An answer as it is compared: without the white space around it, and in lower case where case
/// does not matter.
pub open spec fn cleaned(answer: Seq<char>, case_sensitive: bool) -> Seq<char> {
    if case_sensitive {
        stripped(answer)
    } else {
        lowercase(stripped(answer))
    }
}

/// An answer as it is compared.
pub fn clean_answer(answer: &str, case_sensitive: bool) -> (clean: String)
    ensures
        clean@ == cleaned(answer@, case_sensitive),
{
    if case_sensitive {
        trim(answer).to_owned()
    } else {
        to_lowercase(trim(answer))
    }
}

proof fn lemma_stripped_start(text: Seq<char>)
    ensures
        stripped_start(text).len() > 0 ==> !is_white_space(stripped_start(text).first()),
    decreases text.len(),
{
    if text.len() > 0 && is_white_space(text.first()) {
        lemma_stripped_start(text.drop_first());
    }
}

proof fn lemma_stripped_end(text: Seq<char>)
    ensures
        stripped_end(text).len() > 0 ==> !is_white_space(stripped_end(text).last()),
        stripped_end(text).len() > 0 ==> text.len() > 0 && stripped_end(text).first() == text.first(),
    decreases text.len(),
{
    if text.len() > 0 && is_white_space(text.last()) {
        lemma_stripped_end(text.drop_last());
    }
}

/// An answer that is cleaned stays as it is when it is stripped again, and it does not matter whether
/// the white space around an answer is taken off first.
pub proof fn cleaning_again_changes_nothing(answer: Seq<char>)
    ensures
        stripped(stripped(answer)) == stripped(answer),
        cleaned(cleaned(answer, true), true) == cleaned(answer, true),
        cleaned(cleaned(answer, true), false) == cleaned(answer, false),
{
    lemma_stripped_start(answer);
    lemma_stripped_end(stripped_start(answer));
}

/// A question with typed answers.
#[derive(Debug)]
pub struct SlideConfig {
    /// The question.
    pub title: String,
    /// A picture with it.
    pub media: Option<Media>,
    /// For how long the slide is announced.
    pub introduce_slide: Option<Duration>,
    /// For how long the question is shown before answers are taken.
    pub introduce_question: Option<Duration>,
    /// For how long answers are taken.
    pub time_limit: Option<Duration>,
    /// The most points for an answer.
    pub points_awarded: u64,
    /// The answers that are accepted.
    pub answers: Vec<String>,
    /// Whether case matters.
    pub case_sensitive: bool,
}

/// A slide on which answers are typed.
#[derive(Debug)]
pub struct State {
    /// The question.
    pub config: SlideConfig,
    /// The answers, as they are compared.
    pub book: AnswerBook<String>,
    /// Where the slide is on its way.
    pub core: SlideCore,
    /// The answers that are accepted, as they are compared, each once.
    pub cleaned_answers: Vec<String>,
}

/// What is new on a slide with typed answers.
#[allow(inconsistent_fields)]
#[derive(Debug)]
pub enum UpdateMessage {
    /// The slide is announced.
    SlideAnnouncement {
        /// The number of the slide.
        index: usize,
        /// The number of slides.
        count: usize,
        /// The most points for an answer.
        points_awarded: u64,
        /// For how long it is announced.
        duration: Option<Duration>,
    },
    /// The question is shown.
    QuestionAnnouncement {
        /// The number of the slide.
        index: usize,
        /// The number of slides.
        count: usize,
        /// The question.
        question: String,
        /// A picture with it.
        media: Option<Media>,
        /// For how long.
        duration: Option<Duration>,
        /// Whether answers are taken.
        accept_answers: bool,
    },
    /// So many have answered.
    AnswersCount(usize),
    /// The results are shown.
    AnswersResults {
        /// The answers that are accepted.
        answers: Vec<String>,
        /// The answers given, each with how often.
        results: Vec<(String, usize)>,
        /// Whether case matters.
        case_sensitive: bool,
    },
}

/// How things stand on a slide with typed answers.
#[allow(inconsistent_fields)]
#[derive(Debug)]
pub enum SyncMessage {
    /// The slide is announced.
    SlideAnnouncement {
        /// The number of the slide.
        index: usize,
        /// The number of slides.
        count: usize,
        /// The most points for an answer.
        points_awarded: u64,
        /// For how long it is announced.
        duration: Option<Duration>,
    },
    /// The question is shown.
    QuestionAnnouncement {
        /// The number of the slide.
        index: usize,
        /// The number of slides.
        count: usize,
        /// The question.
        question: String,
        /// A picture with it.
        media: Option<Media>,
        /// For how long still.
        duration: Option<Duration>,
        /// Whether answers are taken.
        accept_answers: bool,
    },
    /// The results are shown.
    AnswersResults {
        /// The number of the slide.
        index: usize,
        /// The number of slides.
        count: usize,
        /// The question.
        question: String,
        /// A picture with it.
        media: Option<Media>,
        /// The answers that are accepted.
        answers: Vec<String>,
        /// The answers given, each with how often.
        results: Vec<(String, usize)>,
        /// Whether case matters.
        case_sensitive: bool,
    },
}

/// Whether `clean` holds the accepted answers as they are compared, each once.
pub open spec fn is_cleaned(clean: Seq<String>, answers: Seq<String>, case_sensitive: bool) -> bool {
    &&& texts(clean).no_duplicates()
    &&& forall|i: int|
        0 <= i < answers.len() ==> texts(clean).contains(cleaned((#[trigger] answers[i])@, case_sensitive))
    &&& forall|text: Seq<char>| #[trigger]
        texts(clean).contains(text) ==> exists|i: int|
            0 <= i < answers.len() && cleaned((#[trigger] answers[i])@, case_sensitive) == text
}

proof fn lemma_push_text(list: Seq<String>, text: String)
    ensures
        texts(list.push(text)) == texts(list).push(text@),
        forall|other: Seq<char>| #[trigger]
            texts(list.push(text)).contains(other) <==> texts(list).contains(other) || other == text@,
{
    let before = texts(list);
    let after = texts(list.push(text));
    assert(after =~= before.push(text@));
    assert forall|other: Seq<char>| #[trigger] after.contains(other) <==> before.contains(other) || other == text@ by {
        if before.contains(other) {
            let i = choose|i: int| 0 <= i < before.len() && before[i] == other;
            assert(after[i] == other);
        }
        assert(after[before.len() as int] == text@);
        if after.contains(other) && other != text@ {
            let i = choose|i: int| 0 <= i < after.len() && after[i] == other;
            assert(before[i] == other);
        }
    }
}

fn clean_answers(answers: &Vec<String>, case_sensitive: bool) -> (clean: Vec<String>)
    ensures
        is_cleaned(clean@, answers@, case_sensitive),
{
    let mut clean: Vec<String> = Vec::new();
    let mut i: usize = 0;
    while i < answers.len()
        invariant
            i <= answers.len(),
            is_cleaned(clean@, answers@.take(i as int), case_sensitive),
        decreases answers.len() - i,
    {
        let text = clean_answer(answers[i].as_str(), case_sensitive);
        let ghost seen = answers@.take(i as int);
        let ghost longer = answers@.take(i + 1);
        let ghost before = clean@;
        let ghost known = texts(clean@).contains(text@);
        proof {
            lemma_push_text(before, text);
            assert(longer[i as int] == answers[i as int]);
        }
        if !has_text(&clean, &text) {
            clean.push(text);
        }
        proof {
            let list = texts(clean@);
            assert forall|j: int| 0 <= j < longer.len() implies list.contains(
                cleaned((#[trigger] longer[j])@, case_sensitive),
            ) by {
                if j < i {
                    assert(seen[j] == longer[j]);
                    assert(texts(before).contains(cleaned(seen[j]@, case_sensitive)));
                }
            }
            assert forall|t: Seq<char>| #[trigger] list.contains(t) implies exists|j: int|
                0 <= j < longer.len() && cleaned((#[trigger] longer[j])@, case_sensitive) == t by {
                if texts(before).contains(t) {
                    let j = choose|j: int| 0 <= j < seen.len() && cleaned((#[trigger] seen[j])@, case_sensitive) == t;
                    assert(longer[j] == seen[j]);
                } else {
                    assert(cleaned(longer[i as int]@, case_sensitive) == t);
                }
            }
            if !known {
                assert forall|a: int, b: int| 0 <= a < b < list.len() implies list[a] != list[b] by {
                    assert(list == texts(before).push(text@));
                    assert(texts(before).contains(texts(before)[a]));
                }
            }
        }
        i = i + 1;
    }
    assert(answers@.take(i as int) =~= answers@);
    clean
}

impl Clone for SlideConfig {
    fn clone(&self) -> (copy: Self)
        ensures
            copy.same(self),
    {
        SlideConfig {
            title: self.title.clone(),
            media: copy_media(&self.media),
            introduce_slide: self.introduce_slide,
            introduce_question: self.introduce_question,
            time_limit: self.time_limit,
            points_awarded: self.points_awarded,
            answers: copy_texts(&self.answers),
            case_sensitive: self.case_sensitive,
        }
    }
}

impl SlideConfig {
    /// Whether the two are the same question.
    pub open spec fn same(&self, other: &Self) -> bool {
        &&& self.title == other.title
        &&& self.media == other.media
        &&& self.introduce_slide == other.introduce_slide
        &&& self.introduce_question == other.introduce_question
        &&& self.time_limit == other.time_limit
        &&& self.points_awarded == other.points_awarded
        &&& self.answers@ == other.answers@
        &&& self.case_sensitive == other.case_sensitive
    }

    /// The slide before it starts.
    pub fn to_state(&self) -> (state: State)
        ensures
            state.wf(),
            state.config.same(self),
            state.book.answers() == Map::<Id, (String, Timestamp)>::empty(),
            state.book.live_answered_count == 0,
            state.core == (SlideCore { state: SlideState::Unstarted, answer_start: None }),
    {
        State {
            config: self.clone(),
            book: AnswerBook::new(),
            core: SlideCore::default(),
            cleaned_answers: clean_answers(&self.answers, self.case_sensitive),
        }
    }

    /// The first limit that the question breaks.
    pub open spec fn problem(&self, settings: Settings) -> Option<Invalid> {
        let question = settings.question;
        if self.title@.len() < question.min_title_length || self.title@.len() > question.max_title_length {
            Some(Invalid::Length)
        } else if self.media is Some && self.media->0.problem(settings.corkboard) is Some {
            self.media->0.problem(settings.corkboard)
        } else if !within(self.introduce_slide, question.min_introduce_slide, question.max_introduce_slide) {
            Some((Invalid::OutOfBounds { min: question.min_introduce_slide, max: question.max_introduce_slide }))
        } else if !within(self.introduce_question, question.min_introduce_question, question.max_introduce_question) {
            Some((Invalid::OutOfBounds { min: question.min_introduce_question, max: question.max_introduce_question }))
        } else if !within(self.time_limit, question.min_time_limit, question.max_time_limit) {
            Some((Invalid::OutOfBounds { min: question.min_time_limit, max: question.max_time_limit }))
        } else if self.answers@.len() > settings.type_answer.max_answer_count || some_too_long(
            self.answers@,
            settings.answer_text.max_length,
        ) {
            Some(Invalid::Length)
        } else {
            None
        }
    }

    /// Tells what is wrong with the question, if anything.
    pub fn validate_with(&self, settings: &Settings) -> (result: Result<(), Invalid>)
        ensures
            result == verdict(self.problem(*settings)),
    {
        let length: usize = self.title.as_str().unicode_len();
        if length < settings.question.min_title_length || length > settings.question.max_title_length {
            return Err(Invalid::Length);
        }
        if let Some(media) = &self.media {
            let result = media.validate_with(&settings.corkboard);
            if result.is_err() {
                return result;
            }
        }
        if let Err(problem) = settings.question.validate_introduce_slide(&self.introduce_slide) {
            return Err(problem);
        }
        if let Err(problem) = settings.question.validate_introduce_question(&self.introduce_question) {
            return Err(problem);
        }
        if let Err(problem) = settings.question.validate_time_limit(&self.time_limit) {
            return Err(problem);
        }
        if self.answers.len() > settings.type_answer.max_answer_count || any_too_long(
            &self.answers,
            settings.answer_text.max_length,
        ) {
            Err(Invalid::Length)
        } else {
            Ok(())
        }
    }
}

impl State {
    /// Whether the answers that are accepted are those of the question.
    pub fn is_sound(&self) -> (sound: bool)
        ensures
            sound == self.wf(),
    {
        let fresh = clean_answers(&self.config.answers, self.config.case_sensitive);
        let ghost clean = texts(self.cleaned_answers@);
        let ghost answers = self.config.answers@;
        let ghost case = self.config.case_sensitive;
        let sound = are_distinct(&self.cleaned_answers) && has_texts(&self.cleaned_answers, &fresh) && has_texts(
            &fresh,
            &self.cleaned_answers,
        );
        proof {
            if sound {
                assert forall|i: int| 0 <= i < answers.len() implies clean.contains(cleaned((#[trigger] answers[i])@, case)) by {
                    let text = cleaned(answers[i]@, case);
                    assert(texts(fresh@).contains(text));
                    let j = choose|j: int| 0 <= j < texts(fresh@).len() && texts(fresh@)[j] == text;
                    assert(fresh@[j]@ == text);
                }
                assert forall|text: Seq<char>| #[trigger] clean.contains(text) implies exists|i: int|
                    0 <= i < answers.len() && cleaned((#[trigger] answers[i])@, case) == text by {
                    let j = choose|j: int| 0 <= j < clean.len() && clean[j] == text;
                    assert(texts(fresh@).contains(self.cleaned_answers@[j]@));
                }
            }
            if self.wf() {
                assert forall|i: int| 0 <= i < fresh@.len() implies clean.contains((#[trigger] fresh@[i])@) by {
                    assert(texts(fresh@)[i] == fresh@[i]@);
                    assert(texts(fresh@).contains(fresh@[i]@));
                }
                assert forall|i: int| 0 <= i < self.cleaned_answers@.len() implies texts(fresh@).contains(
                    (#[trigger] self.cleaned_answers@[i])@,
                ) by {
                    assert(clean[i] == self.cleaned_answers@[i]@);
                    assert(clean.contains(self.cleaned_answers@[i]@));
                }
            }
        }
        sound
    }
}

impl AnswerHandler<String> for State {
    open spec fn wf(&self) -> bool {
        is_cleaned(self.cleaned_answers@, self.config.answers@, self.config.case_sensitive)
    }

    open spec fn book(&self) -> AnswerBook<String> {
        self.book
    }

    open spec fn progress(&self) -> SlideCore {
        self.core
    }

    open spec fn is_correct(&self, answer: String) -> bool {
        exists|i: int|
            0 <= i < self.config.answers@.len() && cleaned(
                (#[trigger] self.config.answers@[i])@,
                self.config.case_sensitive,
            ) == answer@
    }

    open spec fn recordable(&self, answer: String) -> bool {
        true
    }

    open spec fn multiplier(&self, answer: String) -> Multiplier {
        Multiplier::spec_whole(self.is_correct(answer))
    }

    open spec fn full_points(&self) -> u64 {
        self.config.points_awarded
    }

    open spec fn window(&self) -> Option<Duration> {
        self.config.time_limit
    }

    proof fn recorded_answers(&self, id: Id) {
    }

    fn answer_book(&self) -> (book: &AnswerBook<String>) {
        &self.book
    }

    fn slide_core(&self) -> (core: SlideCore) {
        self.core
    }

    fn is_correct_answer(&self, answer: &String) -> (correct: bool) {
        has_text(&self.cleaned_answers, answer)
    }

    fn score_multiplier(&self, answer: &String) -> (multiplier: Multiplier) {
        Multiplier::whole(self.is_correct_answer(answer))
    }

    fn max_points(&self) -> (points: u64) {
        self.config.points_awarded
    }

    fn time_limit(&self) -> (limit: Option<Duration>) {
        self.config.time_limit
    }
}

// ---- results ----

/// Those who gave an answer.
pub open spec fn who_gave(answers: Map<Id, (String, Timestamp)>, text: Seq<char>) -> Set<Id> {
    answers.dom().filter(|id: Id| answers[id].0@ == text)
}

/// How many gave an answer.
pub open spec fn givers(answers: Map<Id, (String, Timestamp)>, text: Seq<char>) -> nat {
    who_gave(answers, text).len()
}

/// Whether a text is listed.
pub open spec fn is_listed(list: Seq<(String, usize)>, text: Seq<char>) -> bool {
    exists|i: int| 0 <= i < list.len() && (#[trigger] list[i]).0@ == text
}

/// Whether `list` holds the answers given, each once, with how many gave it.
pub open spec fn is_count(answers: Map<Id, (String, Timestamp)>, list: Seq<(String, usize)>) -> bool {
    &&& forall|i: int, j: int| 0 <= i < j < list.len() ==> (#[trigger] list[i]).0@ != (#[trigger] list[j]).0@
    &&& forall|i: int|
        0 <= i < list.len() ==> {
            &&& (#[trigger] list[i]).1 == givers(answers, list[i].0@)
            &&& exists|id: Id| #[trigger] answers.contains_key(id) && answers[id].0@ == list[i].0@
        }
    &&& forall|id: Id| #[trigger] answers.contains_key(id) ==> is_listed(list, answers[id].0@)
}

impl State {
    fn count_givers(&self, text: &String) -> (count: usize)
        ensures
            count == givers(self.book.answers(), text@),
    {
        let ghost pred = |id: Id| self.book.answers()[id].0@ == text@;
        let ids = self.book.ids_of_who_answered();
        let mut count: usize = 0;
        let mut i: usize = 0;
        while i < ids.len()
            invariant
                i <= ids.len(),
                count <= i,
                ids@.to_set() == self.book.answers().dom(),
                pred == (|id: Id| self.book.answers()[id].0@ == text@),
                count == ids@.take(i as int).filter(pred).len(),
            decreases ids.len() - i,
        {
            proof {
                lemma_filter_take(ids@, pred, i as int);
                assert(ids@.to_set().contains(ids@[i as int]));
            }
            match self.book.user_answers.get(ids[i]) {
                Some(entry) => {
                    if entry.0 == *text {
                        count = count + 1;
                    }
                },
                None => {},
            }
            i = i + 1;
        }
        proof {
            assert(ids@.take(i as int) =~= ids@);
            lemma_count_keys(ids@, self.book.answers().dom(), pred);
        }
        count
    }

    /// The answers given, each once, with how many gave it.
    pub fn answer_counts(&self) -> (list: Vec<(String, usize)>)
        ensures
            is_count(self.book.answers(), list@),
    {
        let ids = self.book.ids_of_who_answered();
        let mut list: Vec<(String, usize)> = Vec::new();
        let mut i: usize = 0;
        while i < ids.len()
            invariant
                i <= ids.len(),
                ids@.to_set() == self.book.answers().dom(),
                forall|a: int, b: int| 0 <= a < b < list.len() ==> (#[trigger] list[a]).0@ != (#[trigger] list[b]).0@,
                forall|a: int|
                    0 <= a < list.len() ==> {
                        &&& (#[trigger] list[a]).1 == givers(self.book.answers(), list[a].0@)
                        &&& exists|id: Id| #[trigger]
                            self.book.answers().contains_key(id) && self.book.answers()[id].0@ == list[a].0@
                    },
                forall|k: int| 0 <= k < i ==> is_listed(list@, self.book.answers()[#[trigger] ids@[k]].0@),
            decreases ids.len() - i,
        {
            let id = ids[i];
            let ghost before = list@;
            assert(ids@.to_set().contains(ids@[i as int]));
            match self.book.user_answers.get(id) {
                Some(entry) => {
                    let mut known = false;
                    let mut j: usize = 0;
                    while j < list.len()
                        invariant
                            j <= list.len(),
                            known == exists|a: int| 0 <= a < j && (#[trigger] list[a]).0@ == entry.0@,
                        decreases list.len() - j,
                    {
                        if list[j].0 == entry.0 {
                            known = true;
                            assert(list[j as int].0@ == entry.0@);
                        }
                        j = j + 1;
                    }
                    if !known {
                        list.push((entry.0.clone(), self.count_givers(&entry.0)));
                        assert(list[before.len() as int].0@ == entry.0@);
                        assert(self.book.answers().contains_key(id));
                    }
                    proof {
                        assert forall|a: int| 0 <= a < before.len() implies #[trigger] list@[a] == before[a] by {
                        }
                        assert(is_listed(list@, entry.0@)) by {
                            if known {
                                let a = choose|a: int| 0 <= a < list.len() && (#[trigger] list[a]).0@ == entry.0@;
                                assert(list@[a].0@ == entry.0@);
                            } else {
                                assert(list@[before.len() as int].0@ == entry.0@);
                            }
                        }
                        assert forall|k: int| 0 <= k < i + 1 implies is_listed(
                            list@,
                            self.book.answers()[#[trigger] ids@[k]].0@,
                        ) by {
                            if k < i {
                                let text = self.book.answers()[ids@[k]].0@;
                                assert(is_listed(before, text));
                                let a = choose|a: int| 0 <= a < before.len() && (#[trigger] before[a]).0@ == text;
                                assert(list@[a].0@ == text);
                            }
                        }
                    }
                },
                None => {},
            }
            i = i + 1;
        }
        assert forall|id: Id| #[trigger] self.book.answers().contains_key(id) implies is_listed(
            list@,
            self.book.answers()[id].0@,
        ) by {
            assert(ids@.to_set().contains(id));
            let k = choose|k: int| 0 <= k < ids@.len() && ids@[k] == id;
            assert(is_listed(list@, self.book.answers()[ids@[k]].0@));
        }
        list
    }
}

// ---- phases ----

/// A message to everyone.
pub open spec fn told(message: UpdateMessage) -> Effect {
    Effect::Send { to: Audience::Everyone, message: crate::UpdateMessage::TypeAnswer(message) }
}

/// An alarm that moves the slide on.
pub open spec fn scheduled(index: usize, to: SlideState, after: Duration) -> Effect {
    Effect::Schedule { alarm: crate::AlarmMessage::TypeAnswer(AlarmMessage { index, to }), after }
}

/// The alarm, where there is a time.
pub open spec fn scheduled_after(index: usize, to: SlideState, after: Option<Duration>) -> Seq<Effect> {
    match after {
        Some(after) => seq![scheduled(index, to, after)],
        None => Seq::empty(),
    }
}

impl State {
    /// The announcement of the slide.
    pub open spec fn slide_announced(&self, stage: Stage) -> Effect {
        told(
            UpdateMessage::SlideAnnouncement {
                index: stage.index,
                count: stage.count,
                points_awarded: self.config.points_awarded,
                duration: self.config.introduce_slide,
            },
        )
    }

    /// The announcement of the question, before or while answers are taken.
    pub open spec fn question_announced(&self, stage: Stage, accept_answers: bool) -> Effect {
        told(
            UpdateMessage::QuestionAnnouncement {
                index: stage.index,
                count: stage.count,
                question: self.config.title,
                media: self.config.media,
                duration: if accept_answers {
                    self.config.time_limit
                } else {
                    self.config.introduce_question
                },
                accept_answers,
            },
        )
    }

    /// Whether `effect` shows everyone the results.
    pub open spec fn results_announced(&self, effect: Effect) -> bool {
        &&& effect matches Effect::Send {
            to: Audience::Everyone,
            message: crate::UpdateMessage::TypeAnswer(
                UpdateMessage::AnswersResults { answers, results, case_sensitive },
            ),
        }
        &&& answers@ == self.cleaned_answers@
        &&& is_count(self.book.answers(), results@)
        &&& case_sensitive == self.config.case_sensitive
    }

    /// The slide in another phase, with the time running from now on.
    pub open spec fn timed_in(&self, state: SlideState, now: Timestamp) -> State {
        State { core: SlideCore { state, answer_start: Some(now) }, ..*self }
    }

    /// Whether taking answers leads from here to `after`: everyone sees the question, and the time runs.
    pub open spec fn entered_answers(&self, after: &State, stage: Stage, effects: Seq<Effect>) -> bool {
        if self.core.state != SlideState::Question {
            *after == *self && effects.len() == 0
        } else {
            &&& *after == self.timed_in(SlideState::Answers, stage.now)
            &&& effects == seq![self.question_announced(stage, true)] + scheduled_after(
                stage.index,
                SlideState::AnswersResults,
                self.config.time_limit,
            )
        }
    }

    /// Whether showing the question leads from here to `after`: answers are taken at once, after a
    /// while, or when the host asks for them.
    pub open spec fn entered_question(&self, after: &State, stage: Stage, effects: Seq<Effect>) -> bool {
        if self.core.state != SlideState::Unstarted {
            *after == *self && effects.len() == 0
        } else if self.config.introduce_question is Some && nanos(self.config.introduce_question->0) == 0 {
            (State { core: SlideCore { state: SlideState::Question, ..self.core }, ..*self }).entered_answers(
                after,
                stage,
                effects,
            )
        } else {
            &&& *after == self.timed_in(SlideState::Question, stage.now)
            &&& effects == seq![self.question_announced(stage, false)] + scheduled_after(
                stage.index,
                SlideState::Answers,
                self.config.introduce_question,
            )
        }
    }

    /// Whether announcing the slide leads from here to `after`: the question follows at once, after a
    /// while, or when the host asks for it.
    pub open spec fn announced(&self, after: &State, stage: Stage, effects: Seq<Effect>) -> bool {
        &&& effects.len() > 0
        &&& effects[0] == self.slide_announced(stage)
        &&& match self.config.introduce_slide {
            None => *after == *self && effects.len() == 1,
            Some(time) => if nanos(time) == 0 {
                self.entered_question(after, stage, effects.skip(1))
            } else {
                *after == *self && effects == seq![
                    self.slide_announced(stage),
                    scheduled(stage.index, SlideState::Question, time),
                ]
            },
        }
    }

    fn announce_question(&self, stage: &Stage, accept_answers: bool) -> (effect: Effect)
        ensures
            effect == self.question_announced(*stage, accept_answers),
    {
        Effect::Send {
            to: Audience::Everyone,
            message: crate::UpdateMessage::TypeAnswer(
                UpdateMessage::QuestionAnnouncement {
                    index: stage.index,
                    count: stage.count,
                    question: self.config.title.clone(),
                    media: copy_media(&self.config.media),
                    duration: if accept_answers {
                        self.config.time_limit
                    } else {
                        self.config.introduce_question
                    },
                    accept_answers,
                },
            ),
        }
    }

    fn enter_answers(&mut self, stage: &Stage) -> (effects: Vec<Effect>)
        requires
            old(self).wf(),
        ensures
            final(self).wf(),
            old(self).entered_answers(final(self), *stage, effects@),
    {
        let mut effects: Vec<Effect> = Vec::new();
        if !self.core.change_state(SlideState::Question, SlideState::Answers) {
            return effects;
        }
        self.core.start_timer(stage.now);
        effects.push(self.announce_question(stage, true));
        if let Some(time_limit) = self.config.time_limit {
            effects.push(
                Effect::Schedule {
                    alarm: crate::AlarmMessage::TypeAnswer(
                        AlarmMessage { index: stage.index, to: SlideState::AnswersResults },
                    ),
                    after: time_limit,
                },
            );
        }
        assert(effects@ =~= seq![old(self).question_announced(*stage, true)] + scheduled_after(
            stage.index,
            SlideState::AnswersResults,
            old(self).config.time_limit,
        ));
        effects
    }

    fn enter_question(&mut self, stage: &Stage) -> (effects: Vec<Effect>)
        requires
            old(self).wf(),
        ensures
            final(self).wf(),
            old(self).entered_question(final(self), *stage, effects@),
    {
        let mut effects: Vec<Effect> = Vec::new();
        if !self.core.change_state(SlideState::Unstarted, SlideState::Question) {
            return effects;
        }
        if let Some(time) = self.config.introduce_question {
            if is_zero(&time) {
                return self.enter_answers(stage);
            }
        }
        self.core.start_timer(stage.now);
        effects.push(self.announce_question(stage, false));
        if let Some(time) = self.config.introduce_question {
            effects.push(
                Effect::Schedule {
                    alarm: crate::AlarmMessage::TypeAnswer(
                        AlarmMessage { index: stage.index, to: SlideState::Answers },
                    ),
                    after: time,
                },
            );
        }
        assert(effects@ =~= seq![old(self).question_announced(*stage, false)] + scheduled_after(
            stage.index,
            SlideState::Answers,
            old(self).config.introduce_question,
        ));
        effects
    }

    fn announce_slide(&mut self, stage: &Stage) -> (effects: Vec<Effect>)
        requires
            old(self).wf(),
        ensures
            final(self).wf(),
            old(self).announced(final(self), *stage, effects@),
    {
        let mut effects: Vec<Effect> = Vec::new();
        effects.push(
            Effect::Send {
                to: Audience::Everyone,
                message: crate::UpdateMessage::TypeAnswer(
                    UpdateMessage::SlideAnnouncement {
                        index: stage.index,
                        count: stage.count,
                        points_awarded: self.config.points_awarded,
                        duration: self.config.introduce_slide,
                    },
                ),
            },
        );
        if let Some(time) = self.config.introduce_slide {
            if is_zero(&time) {
                let mut rest = self.enter_question(stage);
                let ghost more = rest@;
                effects.append(&mut rest);
                assert(effects@.skip(1) =~= more);
            } else {
                effects.push(
                    Effect::Schedule {
                        alarm: crate::AlarmMessage::TypeAnswer(
                            AlarmMessage { index: stage.index, to: SlideState::Question },
                        ),
                        after: time,
                    },
                );
                assert(effects@ =~= seq![
                    old(self).slide_announced(*stage),
                    scheduled(stage.index, SlideState::Question, time),
                ]);
            }
        }
        effects
    }

    /// Starts the slide.
    pub fn play(&mut self, stage: &Stage) -> (effects: Vec<Effect>)
        requires
            old(self).wf(),
            stage.wf(),
        ensures
            final(self).wf(),
            old(self).announced(final(self), *stage, effects@),
    {
        self.enter_phase(SlideState::Unstarted, stage)
    }
}

impl PhasedSlide<String> for State {
    open spec fn entered(&self, after: &Self, phase: SlideState, stage: Stage, effects: Seq<Effect>) -> bool {
        match phase {
            SlideState::Unstarted => self.announced(after, stage, effects),
            SlideState::Question => self.entered_question(after, stage, effects),
            SlideState::Answers => self.entered_answers(after, stage, effects),
            SlideState::AnswersResults => self.results_sent(after, effects),
        }
    }

    open spec fn results_sent(&self, after: &Self, effects: Seq<Effect>) -> bool {
        if self.core.state != SlideState::Answers {
            *after == *self && effects.len() == 0
        } else {
            &&& *after == State { core: SlideCore { state: SlideState::AnswersResults, ..self.core }, ..*self }
            &&& effects.len() == 1
            &&& self.results_announced(effects[0])
        }
    }

    open spec fn spec_answers_count_message(count: usize) -> crate::UpdateMessage {
        crate::UpdateMessage::TypeAnswer(UpdateMessage::AnswersCount(count))
    }

    fn answers_count_message(count: usize) -> (message: crate::UpdateMessage) {
        crate::UpdateMessage::TypeAnswer(UpdateMessage::AnswersCount(count))
    }

    fn send_answers_results(&mut self) -> (effects: Vec<Effect>) {
        let mut effects: Vec<Effect> = Vec::new();
        if self.core.change_state(SlideState::Answers, SlideState::AnswersResults) {
            effects.push(
                Effect::Send {
                    to: Audience::Everyone,
                    message: crate::UpdateMessage::TypeAnswer(
                        UpdateMessage::AnswersResults {
                            answers: copy_texts(&self.cleaned_answers),
                            results: self.answer_counts(),
                            case_sensitive: self.config.case_sensitive,
                        },
                    ),
                },
            );
        }
        effects
    }

    fn enter_phase(&mut self, phase: SlideState, stage: &Stage) -> (effects: Vec<Effect>) {
        match phase {
            SlideState::Unstarted => self.announce_slide(stage),
            SlideState::Question => self.enter_question(stage),
            SlideState::Answers => self.enter_answers(stage),
            SlideState::AnswersResults => self.send_answers_results(),
        }
    }
}

impl QuestionReceiveMessage<String> for State {
    open spec fn answered(
        &self,
        after: &Self,
        watcher_id: Id,
        message: IncomingPlayerMessage,
        stage: Stage,
        effects: Seq<Effect>,
    ) -> bool {
        match message {
            IncomingPlayerMessage::StringAnswer(answer) => self.took(
                after,
                watcher_id,
                cleaned(answer@, self.config.case_sensitive),
                stage,
                effects,
            ),
            _ => *after == *self && effects.len() == 0,
        }
    }

    fn receive_player_message(&mut self, watcher_id: Id, message: IncomingPlayerMessage, stage: &Stage) -> (effects: Vec<
        Effect,
    >) {
        match message {
            IncomingPlayerMessage::StringAnswer(answer) => {
                let clean = clean_answer(answer.as_str(), self.config.case_sensitive);
                self.take_answer(watcher_id, clean, stage)
            },
            _ => Vec::new(),
        }
    }
}

impl State {
    /// Whether `after` is this slide with one more answer.
    pub open spec fn recorded(&self, after: State, id: Id, answer: String, now: Timestamp) -> bool {
        &&& after.config == self.config
        &&& after.core == self.core
        &&& after.cleaned_answers == self.cleaned_answers
        &&& after.book.answers() == self.book.answers().insert(id, (answer, now))
        &&& after.book.live_answered_count == if self.book.answers().contains_key(id) {
            self.book.live_answered_count as int
        } else {
            self.book.live_answered_count + 1
        }
    }

    /// Whether an answer leads from here to `after`: it is noted, and what follows is done.
    pub open spec fn took(&self, after: &State, watcher_id: Id, clean: Seq<char>, stage: Stage, effects: Seq<Effect>) -> bool {
        exists|recorded: State, answer: String| {
            &&& answer@ == clean
            &&& #[trigger] self.recorded(recorded, watcher_id, answer, stage.now)
            &&& answer_followed_up(recorded, *after, stage, effects)
        }
    }

    /// Takes an answer as it is compared.
    pub fn take_answer(&mut self, watcher_id: Id, clean: String, stage: &Stage) -> (effects: Vec<Effect>)
        requires
            old(self).wf(),
            stage.wf(),
            old(self).book.live_answered_count < usize::MAX,
        ensures
            final(self).wf(),
            old(self).took(final(self), watcher_id, clean@, *stage, effects@),
    {
        self.book.record_answer(watcher_id, clean, stage.now);
        assert(old(self).recorded(*self, watcher_id, clean, stage.now));
        handle_post_answer::<String, State>(self, stage)
    }

    /// Whether `message` tells how things stand.
    pub open spec fn is_state_message(&self, stage: Stage, message: SyncMessage) -> bool {
        match self.core.state {
            SlideState::Unstarted => message == SyncMessage::SlideAnnouncement {
                index: stage.index,
                count: stage.count,
                points_awarded: self.config.points_awarded,
                duration: self.config.introduce_slide,
            },
            SlideState::Question | SlideState::Answers => {
                &&& message matches SyncMessage::QuestionAnnouncement {
                    index,
                    count,
                    question,
                    media,
                    duration,
                    accept_answers,
                }
                &&& index == stage.index
                &&& count == stage.count
                &&& question == self.config.title
                &&& media == self.config.media
                &&& accept_answers == (self.core.state == SlideState::Answers)
                &&& self.core.is_left(
                    if accept_answers {
                        self.config.time_limit
                    } else {
                        self.config.introduce_question
                    },
                    stage.now,
                    duration,
                )
            },
            SlideState::AnswersResults => {
                &&& message matches SyncMessage::AnswersResults {
                    index,
                    count,
                    question,
                    media,
                    answers,
                    results,
                    case_sensitive,
                }
                &&& index == stage.index
                &&& count == stage.count
                &&& question == self.config.title
                &&& media == self.config.media
                &&& answers@ == self.cleaned_answers@
                &&& is_count(self.book.answers(), results@)
                &&& case_sensitive == self.config.case_sensitive
            },
        }
    }

    /// Tells how things stand.
    pub fn state_message(&self, stage: &Stage) -> (message: SyncMessage)
        ensures
            self.is_state_message(*stage, message),
    {
        match self.core.state() {
            SlideState::Unstarted => SyncMessage::SlideAnnouncement {
                index: stage.index,
                count: stage.count,
                points_awarded: self.config.points_awarded,
                duration: self.config.introduce_slide,
            },
            SlideState::Question => SyncMessage::QuestionAnnouncement {
                index: stage.index,
                count: stage.count,
                question: self.config.title.clone(),
                media: copy_media(&self.config.media),
                duration: self.core.time_left(self.config.introduce_question, stage.now),
                accept_answers: false,
            },
            SlideState::Answers => SyncMessage::QuestionAnnouncement {
                index: stage.index,
                count: stage.count,
                question: self.config.title.clone(),
                media: copy_media(&self.config.media),
                duration: self.core.time_left(self.config.time_limit, stage.now),
                accept_answers: true,
            },
            SlideState::AnswersResults => SyncMessage::AnswersResults {
                index: stage.index,
                count: stage.count,
                question: self.config.title.clone(),
                media: copy_media(&self.config.media),
                answers: copy_texts(&self.cleaned_answers),
                results: self.answer_counts(),
                case_sensitive: self.config.case_sensitive,
            },
        }
    }

    /// Takes an alarm; those of other kinds of slides do not matter.
    pub fn receive_alarm(&mut self, message: &crate::AlarmMessage, stage: &Stage) -> (result: (SlideAction, Vec<Effect>))
        requires
            old(self).wf(),
            stage.wf(),
        ensures
            final(self).wf(),
            result.0 == SlideAction::Stay,
            match *message {
                crate::AlarmMessage::TypeAnswer(alarm) => old(self).entered(final(self), alarm.to, *stage, result.1@),
                _ => *final(self) == *old(self) && result.1@.len() == 0,
            },
    {
        match message {
            crate::AlarmMessage::TypeAnswer(alarm) => default_receive_alarm::<String, State>(self, alarm.to, stage),
            _ => (SlideAction::Stay, Vec::new()),
        }
    }
}

/// Only the next phase can be entered: asking for any other one does nothing, so an alarm that comes
/// too late, or twice, does nothing.
pub proof fn only_the_next_phase_is_entered(
    before: State,
    after: State,
    phase: SlideState,
    stage: Stage,
    effects: Seq<Effect>,
)
    requires
        before.entered(&after, phase, stage, effects),
        before.core.state.spec_next() != Some(phase),
        phase != SlideState::Unstarted,
    ensures
        after == before,
        effects.len() == 0,
{
}

/// Entering the next phase brings the slide closer to its end, and never past the phase in which
/// answers are taken.
pub proof fn phases_lead_on(before: State, after: State, phase: SlideState, stage: Stage, effects: Seq<Effect>)
    requires
        before.entered(&after, phase, stage, effects),
        before.core.state.spec_next() == Some(phase),
    ensures
        after.core.state.steps_left() < before.core.state.steps_left(),
        phase != SlideState::AnswersResults ==> after.core.state.steps_left() >= 1,
        after.config == before.config,
        after.book == before.book,
{
}

/// Answers of players change the phase only to show the results, once everyone has answered.
pub proof fn answers_only_bring_results(
    before: State,
    after: State,
    watcher_id: Id,
    message: IncomingPlayerMessage,
    stage: Stage,
    effects: Seq<Effect>,
)
    requires
        before.answered(&after, watcher_id, message, stage, effects),
    ensures
        after.core.state == before.core.state || (before.core.state == SlideState::Answers && after.core.state
            == SlideState::AnswersResults),
        after.config == before.config,
{
}

// ---- what players can count on ----

proof fn lemma_start_of(text: Seq<char>) -> (from: int)
    ensures
        0 <= from <= text.len(),
        stripped_start(text) == text.subrange(from, text.len() as int),
        forall|i: int| 0 <= i < from ==> is_white_space(#[trigger] text[i]),
        from < text.len() ==> !is_white_space(text[from]),
    decreases text.len(),
{
    if text.len() > 0 && is_white_space(text.first()) {
        let rest = text.drop_first();
        let from = lemma_start_of(rest);
        assert(rest.subrange(from, rest.len() as int) =~= text.subrange(from + 1, text.len() as int));
        assert forall|i: int| 0 <= i < from + 1 implies is_white_space(#[trigger] text[i]) by {
            if i > 0 {
                assert(text[i] == rest[i - 1]);
            }
        }
        if from < rest.len() {
            assert(rest[from] == text[from + 1]);
        }
        from + 1
    } else {
        assert(text.subrange(0, text.len() as int) =~= text);
        0
    }
}

proof fn lemma_end_of(text: Seq<char>) -> (to: int)
    ensures
        0 <= to <= text.len(),
        stripped_end(text) == text.subrange(0, to),
        forall|i: int| to <= i < text.len() ==> is_white_space(#[trigger] text[i]),
        to > 0 ==> !is_white_space(text[to - 1]),
    decreases text.len(),
{
    if text.len() > 0 && is_white_space(text.last()) {
        let rest = text.drop_last();
        let to = lemma_end_of(rest);
        assert(rest.subrange(0, to) =~= text.subrange(0, to));
        assert forall|i: int| to <= i < text.len() implies is_white_space(#[trigger] text[i]) by {
            if i < rest.len() {
                assert(text[i] == rest[i]);
            }
        }
        to
    } else {
        assert(text.subrange(0, text.len() as int) =~= text);
        text.len() as int
    }
}

/// Whether `part` is what stands in `text` between the white space at its two ends.
pub open spec fn stands_between_white_space(part: Seq<char>, text: Seq<char>) -> bool {
    &&& part.len() > 0 ==> !is_white_space(part.first()) && !is_white_space(part.last())
    &&& exists|before: Seq<char>, after: Seq<char>| {
        &&& text == #[trigger] (before + part + after)
        &&& forall|i: int| 0 <= i < before.len() ==> is_white_space(#[trigger] before[i])
        &&& forall|i: int| 0 <= i < after.len() ==> is_white_space(#[trigger] after[i])
    }
}

/// Only the white space at both ends of an answer is taken off, and all of it; where case matters nothing
/// else changes.
pub proof fn only_white_space_is_taken_off(answer: Seq<char>)
    ensures
        stands_between_white_space(cleaned(answer, true), answer),
        cleaned(answer, false) == lowercase(cleaned(answer, true)),
{
    let from = lemma_start_of(answer);
    let rest = answer.subrange(from, answer.len() as int);
    let to = lemma_end_of(rest);
    let part = rest.subrange(0, to);
    let before = answer.subrange(0, from);
    let after = rest.subrange(to, rest.len() as int);
    assert(answer =~= before + part + after);
    assert forall|i: int| 0 <= i < after.len() implies is_white_space(#[trigger] after[i]) by {
        assert(after[i] == rest[to + i]);
    }
    assert forall|i: int| 0 <= i < before.len() implies is_white_space(#[trigger] before[i]) by {
        assert(before[i] == answer[i]);
    }
    if part.len() > 0 {
        assert(part.first() == answer[from]);
        assert(part.last() == rest[to - 1]);
    }
}

/// A typed answer that is noted is correct where it is, after cleaning, one of the accepted answers after
/// cleaning; it earns all or nothing.
pub proof fn typed_answers_are_judged(slide: State, answer: String)
    ensures
        slide.is_correct(answer) <==> exists|i: int|
            0 <= i < slide.config.answers@.len() && answer@ == cleaned(
                (#[trigger] slide.config.answers@[i])@,
                slide.config.case_sensitive,
            ),
        slide.multiplier(answer).denominator == 1,
        slide.is_correct(answer) ==> slide.multiplier(answer).numerator == 1,
        !slide.is_correct(answer) ==> slide.multiplier(answer).numerator == 0,
        slide.full_points() == slide.config.points_awarded,
        slide.window() == slide.config.time_limit,
{
}

/// Typing an accepted answer is correct, with any white space around it, and in any case where case does
/// not matter.
pub proof fn accepted_answers_are_correct(
    before: State,
    after: State,
    watcher_id: Id,
    message: IncomingPlayerMessage,
    stage: Stage,
    effects: Seq<Effect>,
    i: int,
)
    requires
        before.answered(&after, watcher_id, message, stage, effects),
        0 <= i < before.config.answers@.len(),
        ({
            &&& message matches IncomingPlayerMessage::StringAnswer(answer)
            &&& {
                ||| answer@ == before.config.answers@[i]@
                ||| stripped(answer@) == stripped(before.config.answers@[i]@)
                ||| !before.config.case_sensitive && lowercase(stripped(answer@)) == lowercase(
                    stripped(before.config.answers@[i]@),
                )
            }
        }),
    ensures
        after.is_correct(after.book.answers()[watcher_id].0),
{
    let given = after.book.answers()[watcher_id].0;
    assert(given@ == cleaned(after.config.answers@[i]@, after.config.case_sensitive));
}

/// A typed answer is noted as it is compared, with its time, in place of an earlier one, and counted once;
/// nothing else happens to the answers, and any other message changes nothing.
pub proof fn answers_are_noted(
    before: State,
    after: State,
    watcher_id: Id,
    message: IncomingPlayerMessage,
    stage: Stage,
    effects: Seq<Effect>,
)
    requires
        before.answered(&after, watcher_id, message, stage, effects),
    ensures
        after.config == before.config,
        after.cleaned_answers == before.cleaned_answers,
        !(message is StringAnswer) ==> after == before && effects.len() == 0,
        message matches IncomingPlayerMessage::StringAnswer(answer) ==> {
            &&& after.book.answers().contains_key(watcher_id)
            &&& after.book.answers()[watcher_id].1 == stage.now
            &&& before.config.case_sensitive ==> stands_between_white_space(
                after.book.answers()[watcher_id].0@,
                answer@,
            )
            &&& !before.config.case_sensitive ==> exists|part: Seq<char>| #[trigger]
                stands_between_white_space(part, answer@) && after.book.answers()[watcher_id].0@ == lowercase(part)
            &&& forall|other: Id|
                other != watcher_id ==> (#[trigger] after.book.answers().contains_key(other)
                    <==> before.book.answers().contains_key(other))
            &&& forall|other: Id|
                other != watcher_id && before.book.answers().contains_key(other)
                    ==> #[trigger] after.book.answers()[other] == before.book.answers()[other]
            &&& before.book.answers().contains_key(watcher_id) ==> after.book.live_answered_count
                == before.book.live_answered_count
            &&& !before.book.answers().contains_key(watcher_id) ==> after.book.live_answered_count
                == before.book.live_answered_count + 1
        },
{
    if let IncomingPlayerMessage::StringAnswer(answer) = message {
        only_white_space_is_taken_off(answer@);
        assert(stands_between_white_space(stripped(answer@), answer@));
    }
}

/// The results are shown early exactly where everyone present has answered; until then the host may hear
/// how many have.
pub proof fn the_last_answer_brings_the_results(
    before: State,
    after: State,
    watcher_id: Id,
    message: IncomingPlayerMessage,
    stage: Stage,
    effects: Seq<Effect>,
)
    requires
        before.answered(&after, watcher_id, message, stage, effects),
        message is StringAnswer,
    ensures
        after.core.answer_start == before.core.answer_start,
        before.core.state != SlideState::Answers ==> after.core.state == before.core.state,
        ({
            let answered = after.book.live_answered_count;
            let players = stage.watchers.present(ValueKind::Player).len();
            &&& before.core.state == SlideState::Answers ==> (after.core.state == SlideState::AnswersResults <==> players
                > 0 && answered >= players)
            &&& before.core.state == SlideState::Answers && after.core.state == SlideState::AnswersResults ==> {
                &&& effects.len() == 1
                &&& effects[0] matches Effect::Send {
                    to: Audience::Everyone,
                    message: crate::UpdateMessage::TypeAnswer(UpdateMessage::AnswersResults { answers, results, case_sensitive }),
                }
            }
            &&& (players == 0 || answered < players) ==> after.core.state == before.core.state && effects.len() <= 1
            &&& (players == 0 || answered < players) && effects.len() == 1 ==> effects[0] == (Effect::Send {
                to: Audience::Kind(ValueKind::Host),
                message: crate::UpdateMessage::TypeAnswer(UpdateMessage::AnswersCount(answered)),
            })
            &&& (players == 0 || answered < players) && answered < 32 ==> effects.len() == 1
        }),
{
    let answer = message->StringAnswer_0;
    let clean = cleaned(answer@, before.config.case_sensitive);
    let (recorded, given) = choose|recorded: State, given: String| {
        &&& given@ == clean
        &&& #[trigger] before.recorded(recorded, watcher_id, given, stage.now)
        &&& answer_followed_up(recorded, after, stage, effects)
    };
    crate::fuiz::common::results_wait_for_everyone(
        recorded.book.live_answered_count,
        stage.watchers.present(ValueKind::Player).len(),
    );
}

/// Everyone who gave an answer is counted for it once, and nobody else.
pub proof fn givers_are_counted(answers: Map<Id, (String, Timestamp)>, id: Id, entry: (String, Timestamp), text: Seq<char>)
    requires
        answers.dom().finite(),
        !answers.contains_key(id),
    ensures
        givers(Map::<Id, (String, Timestamp)>::empty(), text) == 0,
        entry.0@ == text ==> givers(answers.insert(id, entry), text) == givers(answers, text) + 1,
        entry.0@ != text ==> givers(answers.insert(id, entry), text) == givers(answers, text),
{
    let none = Map::<Id, (String, Timestamp)>::empty();
    assert(who_gave(none, text) =~= Set::empty());
    let more = answers.insert(id, entry);
    let before = who_gave(answers, text);
    let after = who_gave(more, text);
    assert(before.finite());
    if entry.0@ == text {
        assert(after =~= before.insert(id));
    } else {
        assert(after =~= before);
    }
}

/// The clock starts as answers are taken, which everyone is told; an alarm for the results follows where
/// there is a time limit.
pub proof fn taking_answers_starts_the_clock(before: State, after: State, stage: Stage, effects: Seq<Effect>)
    requires
        before.entered(&after, SlideState::Answers, stage, effects),
        before.core.state == SlideState::Question,
    ensures
        after.core.state == SlideState::Answers,
        after.core.answer_start == Some(stage.now),
        after.config == before.config,
        after.book == before.book,
        after.cleaned_answers == before.cleaned_answers,
        effects.len() == if before.config.time_limit is Some { 2int } else { 1int },
        effects[0] == (Effect::Send {
            to: Audience::Everyone,
            message: crate::UpdateMessage::TypeAnswer(
                UpdateMessage::QuestionAnnouncement {
                    index: stage.index,
                    count: stage.count,
                    question: before.config.title,
                    media: before.config.media,
                    duration: before.config.time_limit,
                    accept_answers: true,
                },
            ),
        }),
        before.config.time_limit is Some ==> effects[1] == (Effect::Schedule {
            alarm: crate::AlarmMessage::TypeAnswer(AlarmMessage { index: stage.index, to: SlideState::AnswersResults }),
            after: before.config.time_limit->0,
        }),
{
}

/// The question is shown for its time and answers are taken then: at once after no time, and when the host
/// asks for them where no time is set.
pub proof fn the_question_stays_for_its_time(before: State, after: State, stage: Stage, effects: Seq<Effect>)
    requires
        before.entered(&after, SlideState::Question, stage, effects),
        before.core.state == SlideState::Unstarted,
    ensures
        after.core.answer_start == Some(stage.now),
        before.config.introduce_question is None || nanos(before.config.introduce_question->0) > 0 ==> {
            &&& after.core.state == SlideState::Question
            &&& effects.len() == if before.config.introduce_question is Some { 2int } else { 1int }
            &&& effects[0] == (Effect::Send {
                to: Audience::Everyone,
                message: crate::UpdateMessage::TypeAnswer(
                    UpdateMessage::QuestionAnnouncement {
                        index: stage.index,
                        count: stage.count,
                        question: before.config.title,
                        media: before.config.media,
                        duration: before.config.introduce_question,
                        accept_answers: false,
                    },
                ),
            })
            &&& before.config.introduce_question is Some ==> effects[1] == (Effect::Schedule {
                alarm: crate::AlarmMessage::TypeAnswer(AlarmMessage { index: stage.index, to: SlideState::Answers }),
                after: before.config.introduce_question->0,
            })
        },
        before.config.introduce_question is Some && nanos(before.config.introduce_question->0) == 0
            ==> after.core.state == SlideState::Answers,
        after.config == before.config,
        after.book == before.book,
        after.cleaned_answers == before.cleaned_answers,
{
}

/// The slide is announced for its time and the question follows then: at once after no time, and when the
/// host asks for it where no time is set.
pub proof fn the_slide_is_announced_for_its_time(before: State, after: State, stage: Stage, effects: Seq<Effect>)
    requires
        before.entered(&after, SlideState::Unstarted, stage, effects),
        before.core.state == SlideState::Unstarted,
    ensures
        effects.len() > 0,
        effects[0] == (Effect::Send {
            to: Audience::Everyone,
            message: crate::UpdateMessage::TypeAnswer(
                UpdateMessage::SlideAnnouncement {
                    index: stage.index,
                    count: stage.count,
                    points_awarded: before.config.points_awarded,
                    duration: before.config.introduce_slide,
                },
            ),
        }),
        before.config.introduce_slide is None ==> after == before && effects.len() == 1,
        before.config.introduce_slide matches Some(time) ==> if nanos(time) == 0 {
            after.core.state != SlideState::Unstarted && after.core.state != SlideState::AnswersResults
        } else {
            &&& after == before
            &&& effects.len() == 2
            &&& effects[1] == (Effect::Schedule {
                alarm: crate::AlarmMessage::TypeAnswer(AlarmMessage { index: stage.index, to: SlideState::Question }),
                after: time,
            })
        },
        after.config == before.config,
        after.book == before.book,
{
}

/// Each answer that is listed was given, is listed once, and is listed with how many gave it.
pub proof fn listed_answers_were_given(answers: Map<Id, (String, Timestamp)>, list: Seq<(String, usize)>, i: int, j: int)
    requires
        is_count(answers, list),
        0 <= i < list.len(),
    ensures
        list[i].1 == givers(answers, list[i].0@),
        exists|id: Id| #[trigger] answers.contains_key(id) && answers[id].0@ == list[i].0@,
        0 <= j < list.len() && j != i ==> list[j].0@ != list[i].0@,
{
    assert(list[i].1 == givers(answers, list[i].0@));
}

/// Each answer that was given is listed.
pub proof fn given_answers_are_listed(answers: Map<Id, (String, Timestamp)>, list: Seq<(String, usize)>, id: Id)
    requires
        is_count(answers, list),
        answers.contains_key(id),
    ensures
        exists|i: int| 0 <= i < list.len() && (#[trigger] list[i]).0@ == answers[id].0@,
{
    assert(is_listed(list, answers[id].0@));
}

/// The results list what is accepted and the answers given with how many gave each; the answers stay.
pub proof fn results_list_every_answer(before: State, after: State, stage: Stage, effects: Seq<Effect>)
    requires
        before.entered(&after, SlideState::AnswersResults, stage, effects),
        before.core.state == SlideState::Answers,
    ensures
        after.core.state == SlideState::AnswersResults,
        after.core.answer_start == before.core.answer_start,
        after.config == before.config,
        after.book == before.book,
        after.cleaned_answers == before.cleaned_answers,
        effects.len() == 1,
        ({
            &&& effects[0] matches Effect::Send {
                to: Audience::Everyone,
                message: crate::UpdateMessage::TypeAnswer(
                    UpdateMessage::AnswersResults { answers, results, case_sensitive },
                ),
            }
            &&& answers@ == before.cleaned_answers@
            &&& case_sensitive == before.config.case_sensitive
            &&& is_count(before.book.answers(), results@)
        }),
{
    assert(before.results_announced(effects[0]));
}

/// Whoever asks how things stand hears the time that is left, of the time limit while answers are taken and
/// of the question's time before: the time gone and the time left make it up until nothing is left.
pub proof fn the_time_left_is_told(slide: State, stage: Stage, message: SyncMessage, start: Timestamp)
    requires
        slide.is_state_message(stage, message),
        slide.core.answer_start == Some(start),
        stage.now.nanos_since_epoch >= start.nanos_since_epoch,
    ensures
        slide.core.state == SlideState::Unstarted <==> message is SlideAnnouncement,
        slide.core.state == SlideState::AnswersResults <==> message is AnswersResults,
        message matches SyncMessage::QuestionAnnouncement {
            index,
            count,
            question,
            media,
            duration,
            accept_answers,
        } ==> {
            let gone = stage.now.nanos_since_epoch - start.nanos_since_epoch;
            let time = if slide.core.state == SlideState::Answers {
                slide.config.time_limit
            } else {
                slide.config.introduce_question
            };
            &&& index == stage.index && count == stage.count && question == slide.config.title
            &&& media == slide.config.media
            &&& accept_answers <==> slide.core.state == SlideState::Answers
            &&& duration is Some <==> time is Some
            &&& duration is Some && gone <= nanos(time->0) ==> nanos(duration->0) + gone == nanos(time->0)
            &&& duration is Some && gone >= nanos(time->0) ==> nanos(duration->0) == 0
        },
{
}

/// A question is allowed where the length of its text, its picture, its times, the number of accepted answers
/// and their lengths are; a time out of its range is told with that range.
pub proof fn questions_keep_the_limits(config: SlideConfig, settings: Settings)
    ensures
        ({
            let question = settings.question;
            config.problem(settings) is None <==> {
            &&& question.min_title_length <= config.title@.len() <= question.max_title_length
            &&& config.media matches Some(Media::Image(Image::Corkboard { id, alt })) ==> id@.len()
                == settings.corkboard.id_length && alt@.len() <= settings.corkboard.max_alt_length
            &&& config.introduce_slide matches Some(time) ==> question.min_introduce_slide * 1_000_000_000 <= nanos(time)
                <= question.max_introduce_slide * 1_000_000_000
            &&& config.introduce_question matches Some(time) ==> question.min_introduce_question * 1_000_000_000 <= nanos(
                time,
            ) <= question.max_introduce_question * 1_000_000_000
            &&& config.time_limit matches Some(time) ==> question.min_time_limit * 1_000_000_000 <= nanos(time)
                <= question.max_time_limit * 1_000_000_000
            &&& config.answers@.len() <= settings.type_answer.max_answer_count
            &&& forall|i: int|
                0 <= i < config.answers@.len() ==> (#[trigger] config.answers@[i])@.len()
                    <= settings.answer_text.max_length
            }
        }),
        config.problem(settings) matches Some(Invalid::OutOfBounds { min, max }) ==> {
            let question = settings.question;
            ||| config.introduce_slide is Some && min == question.min_introduce_slide && max
                == question.max_introduce_slide && !(min * 1_000_000_000 <= nanos(config.introduce_slide->0) <= max
                * 1_000_000_000)
            ||| config.introduce_question is Some && min == question.min_introduce_question && max
                == question.max_introduce_question && !(min * 1_000_000_000 <= nanos(config.introduce_question->0)
                <= max * 1_000_000_000)
            ||| config.time_limit is Some && min == question.min_time_limit && max == question.max_time_limit && !(min
                * 1_000_000_000 <= nanos(config.time_limit->0) <= max * 1_000_000_000)
        },
        config.problem(settings) != Some(Invalid::Range),
{
}

// ---- what calls give ----

/// Cleaning takes the white space off both ends of an answer, and nothing else where case matters; where it
/// does not, what is left is put in lower case.
pub proof fn answers_are_cleaned(answer: &str, exact: String, lower: String)
    requires
        call_ensures(clean_answer, (answer, true), exact),
        call_ensures(clean_answer, (answer, false), lower),
    ensures
        stands_between_white_space(exact@, answer@),
        lower@ == lowercase(exact@),
{
    only_white_space_is_taken_off(answer@);
}

/// A typed answer is judged by the accepted answers as they are compared, and earns all or nothing.
pub proof fn typed_answers_earn_all_or_nothing(slide: State, answer: String, correct: bool, part: Multiplier)
    requires
        slide.wf(),
        call_ensures(<State as AnswerHandler<String>>::is_correct_answer, (&slide, &answer), correct),
        call_ensures(<State as AnswerHandler<String>>::score_multiplier, (&slide, &answer), part),
    ensures
        correct <==> exists|i: int|
            0 <= i < slide.config.answers@.len() && answer@ == cleaned(
                (#[trigger] slide.config.answers@[i])@,
                slide.config.case_sensitive,
            ),
        part.denominator == 1,
        part.numerator == if correct { 1int } else { 0int },
{
}

/// Whoever asks sees the screen of the phase: the slide announced, the question with whether answers are
/// taken, or what is accepted with the answers given.
pub proof fn the_screen_is_told(slide: State, stage: Stage, message: SyncMessage)
    requires
        slide.is_state_message(stage, message),
    ensures
        match message {
            SyncMessage::SlideAnnouncement { index, count, points_awarded, duration } => {
                &&& slide.core.state == SlideState::Unstarted
                &&& index == stage.index && count == stage.count
                &&& points_awarded == slide.config.points_awarded
                &&& duration == slide.config.introduce_slide
            },
            SyncMessage::QuestionAnnouncement { index, count, question, media, duration, accept_answers } => {
                &&& accept_answers <==> slide.core.state == SlideState::Answers
                &&& !accept_answers <==> slide.core.state == SlideState::Question
                &&& question == slide.config.title && media == slide.config.media
            },
            SyncMessage::AnswersResults { index, count, question, media, answers, results, case_sensitive } => {
                &&& slide.core.state == SlideState::AnswersResults
                &&& index == stage.index && count == stage.count
                &&& question == slide.config.title && media == slide.config.media
                &&& answers@ == slide.cleaned_answers@
                &&& is_count(slide.book.answers(), results@)
                &&& case_sensitive == slide.config.case_sensitive
            },
        },
{
}

/// What is accepted is shown as it is compared: every accepted answer, each once, and nothing else.
pub proof fn accepted_answers_are_shown_once(slide: State, i: int, j: int, k: int)
    requires
        slide.wf(),
        0 <= i < slide.config.answers@.len(),
        0 <= j < k < slide.cleaned_answers@.len(),
    ensures
        exists|m: int|
            0 <= m < slide.cleaned_answers@.len() && (#[trigger] slide.cleaned_answers@[m])@ == cleaned(
                slide.config.answers@[i]@,
                slide.config.case_sensitive,
            ),
        slide.cleaned_answers@[j]@ != slide.cleaned_answers@[k]@,
        exists|m: int|
            0 <= m < slide.config.answers@.len() && cleaned(
                (#[trigger] slide.config.answers@[m])@,
                slide.config.case_sensitive,
            ) == slide.cleaned_answers@[j]@,
{
    let shown = texts(slide.cleaned_answers@);
    let text = cleaned(slide.config.answers@[i]@, slide.config.case_sensitive);
    assert(shown.contains(text));
    let m = choose|m: int| 0 <= m < shown.len() && shown[m] == text;
    assert(slide.cleaned_answers@[m]@ == text);
    assert(shown[j] != shown[k]);
    assert(shown.contains(shown[j]));
}

} // verus!
