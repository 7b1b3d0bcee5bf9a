//! Limits on quizzes and games.
use std::time::Duration;

use vstd::prelude::*;
use vstd::string::StringExecFns;

use crate::texts::{decimal, decimal_text};
use crate::time::nanos;

verus! {

/// What a limit says of something that breaks it.
#[derive(Copy, Clone, Debug, PartialEq, Eq, Structural)]
pub enum Invalid {
    /// Too long or too short.
    Length,
    /// A number out of its range.
    Range,
    /// A time out of its range, in seconds.
    OutOfBounds {
        /// The least that is allowed.
        min: u64,
        /// The most that is allowed.
        max: u64,
    },
}

impl Invalid {
    /// The problem in words.
    pub open spec fn spec_message(self) -> Seq<char> {
        match self {
            Invalid::Length => "length is out of bounds"@,
            Invalid::Range => "number is out of bounds"@,
            Invalid::OutOfBounds { min, max } => "outside of bounds ["@ + decimal(min as nat) + ","@ + decimal(
                max as nat,
            ) + "]"@,
        }
    }

    /// The problem in words.
    pub fn message(&self) -> (text: String)
        ensures
            text@ == self.spec_message(),
    {
        match self {
            Invalid::Length => "length is out of bounds".to_owned(),
            Invalid::Range => "number is out of bounds".to_owned(),
            Invalid::OutOfBounds { min, max } => {
                let mut text = "outside of bounds [".to_owned();
                text.append(decimal_text(*min as u128).as_str());
                text.append(",");
                text.append(decimal_text(*max as u128).as_str());
                text.append("]");
                text
            },
        }
    }
}

/// All limits.
#[derive(Debug, Clone, Copy)]
pub struct Settings {
    /// Limits on a quiz as a whole.
    pub fuiz: FuizSettings,
    /// Limits on all kinds of questions.
    pub question: QuestionSettings,
    /// Limits on multiple choice questions.
    pub multiple_choice: MultipleChoiceSettings,
    /// Limits on questions with typed answers.
    pub type_answer: TypeAnswerSettings,
    /// Limits on questions about an order.
    pub order: OrderSettings,
    /// Limits on pictures.
    pub corkboard: CorkboardSettings,
    /// Limits on answers.
    pub answer_text: AnswerTextSettings,
}

/// Limits on a quiz as a whole.
#[derive(Debug, Clone, Copy)]
pub struct FuizSettings {
    /// The most slides.
    pub max_slides_count: usize,
    /// The most characters in the title.
    pub max_title_length: usize,
    /// The most participants.
    pub max_player_count: usize,
}

/// Limits on all kinds of questions.
#[derive(Debug, Clone, Copy)]
pub struct QuestionSettings {
    /// The shortest question.
    pub min_title_length: usize,
    /// The longest question.
    pub max_title_length: usize,
    /// The shortest time to answer, in seconds.
    pub min_time_limit: u64,
    /// The longest time to answer, in seconds.
    pub max_time_limit: u64,
    /// The shortest time to read the question, in seconds.
    pub min_introduce_question: u64,
    /// The longest time to read the question, in seconds.
    pub max_introduce_question: u64,
    /// The shortest time to announce the slide, in seconds.
    pub min_introduce_slide: u64,
    /// The longest time to announce the slide, in seconds.
    pub max_introduce_slide: u64,
}

/// Limits on multiple choice questions.
#[derive(Debug, Clone, Copy)]
pub struct MultipleChoiceSettings {
    /// The most choices.
    pub max_answer_count: usize,
}

/// Limits on questions with typed answers.
#[derive(Debug, Clone, Copy)]
pub struct TypeAnswerSettings {
    /// The most answers that are accepted.
    pub max_answer_count: usize,
}

/// Limits on questions about an order.
#[derive(Debug, Clone, Copy)]
pub struct OrderSettings {
    /// The most items.
    pub max_answer_count: usize,
    /// The most characters in a label of the axis.
    pub max_label_length: usize,
}

/// Limits on pictures.
#[derive(Debug, Clone, Copy)]
pub struct CorkboardSettings {
    /// The characters in an identifier.
    pub id_length: usize,
    /// The most characters in the description.
    pub max_alt_length: usize,
}

/// Limits on answers.
#[derive(Debug, Clone, Copy)]
pub struct AnswerTextSettings {
    /// The most characters.
    pub max_length: usize,
}

impl Default for FuizSettings {
    fn default() -> (settings: Self)
        ensures
            settings.max_slides_count == 500,
            settings.max_title_length == 500,
            settings.max_player_count == 1000,
    {
        FuizSettings { max_slides_count: 500, max_title_length: 500, max_player_count: 1000 }
    }
}

impl Default for QuestionSettings {
    fn default() -> (settings: Self)
        ensures
            settings.min_title_length == 0,
            settings.max_title_length == 500,
            settings.min_time_limit == 5,
            settings.max_time_limit == 240,
            settings.min_introduce_question == 0,
            settings.max_introduce_question == 240,
            settings.min_introduce_slide == 0,
            settings.max_introduce_slide == 240,
    {
        QuestionSettings {
            min_title_length: 0,
            max_title_length: 500,
            min_time_limit: 5,
            max_time_limit: 240,
            min_introduce_question: 0,
            max_introduce_question: 240,
            min_introduce_slide: 0,
            max_introduce_slide: 240,
        }
    }
}

impl Default for MultipleChoiceSettings {
    fn default() -> (settings: Self)
        ensures
            settings.max_answer_count == 8,
    {
        MultipleChoiceSettings { max_answer_count: 8 }
    }
}

impl Default for TypeAnswerSettings {
    fn default() -> (settings: Self)
        ensures
            settings.max_answer_count == 16,
    {
        TypeAnswerSettings { max_answer_count: 16 }
    }
}

impl Default for OrderSettings {
    fn default() -> (settings: Self)
        ensures
            settings.max_answer_count == 8,
            settings.max_label_length == 250,
    {
        OrderSettings { max_answer_count: 8, max_label_length: 250 }
    }
}

impl Default for CorkboardSettings {
    fn default() -> (settings: Self)
        ensures
            settings.id_length == 16,
            settings.max_alt_length == 200,
    {
        CorkboardSettings { id_length: 16, max_alt_length: 200 }
    }
}

impl Default for AnswerTextSettings {
    fn default() -> (settings: Self)
        ensures
            settings.max_length == 500,
    {
        AnswerTextSettings { max_length: 500 }
    }
}

impl Default for Settings {
    fn default() -> (settings: Self)
        ensures
            settings.fuiz.max_slides_count == 500,
            settings.fuiz.max_title_length == 500,
            settings.fuiz.max_player_count == 1000,
            settings.question.min_title_length == 0,
            settings.question.max_title_length == 500,
            settings.question.min_time_limit == 5,
            settings.question.max_time_limit == 240,
            settings.question.min_introduce_question == 0,
            settings.question.max_introduce_question == 240,
            settings.question.min_introduce_slide == 0,
            settings.question.max_introduce_slide == 240,
            settings.multiple_choice.max_answer_count == 8,
            settings.type_answer.max_answer_count == 16,
            settings.order.max_answer_count == 8,
            settings.order.max_label_length == 250,
            settings.corkboard.id_length == 16,
            settings.corkboard.max_alt_length == 200,
            settings.answer_text.max_length == 500,
    {
        Settings {
            fuiz: FuizSettings::default(),
            question: QuestionSettings::default(),
            multiple_choice: MultipleChoiceSettings::default(),
            type_answer: TypeAnswerSettings::default(),
            order: OrderSettings::default(),
            corkboard: CorkboardSettings::default(),
            answer_text: AnswerTextSettings::default(),
        }
    }
}

/// What validation says: the problem, if there is one.
pub open spec fn verdict(problem: Option<Invalid>) -> Result<(), Invalid> {
    match problem {
        Some(problem) => Err(problem),
        None => Ok(()),
    }
}

/// Whether a time is in the range, which is given in seconds; no time at all always is.
pub open spec fn within(time: Option<Duration>, min: u64, max: u64) -> bool {
    match time {
        Some(time) => min * 1_000_000_000 <= nanos(time) <= max * 1_000_000_000,
        None => true,
    }
}

impl QuestionSettings {
    /// Whether the time to answer is allowed.
    pub fn validate_time_limit(&self, val: &Option<Duration>) -> (result: Result<(), Invalid>)
        ensures
            result == if within(*val, self.min_time_limit, self.max_time_limit) {
                Ok::<(), Invalid>(())
            } else {
                Err((Invalid::OutOfBounds { min: self.min_time_limit, max: self.max_time_limit }))
            },
    {
        match val {
            None => Ok(()),
            Some(duration) => validate_duration_range(duration, self.min_time_limit, self.max_time_limit),
        }
    }

    /// Whether the time to read the question is allowed.
    pub fn validate_introduce_question(&self, val: &Option<Duration>) -> (result: Result<(), Invalid>)
        ensures
            result == if within(*val, self.min_introduce_question, self.max_introduce_question) {
                Ok::<(), Invalid>(())
            } else {
                Err((Invalid::OutOfBounds { min: self.min_introduce_question, max: self.max_introduce_question }))
            },
    {
        match val {
            None => Ok(()),
            Some(duration) => {
                validate_duration_range(duration, self.min_introduce_question, self.max_introduce_question)
            },
        }
    }

    /// Whether the time to announce the slide is allowed.
    pub fn validate_introduce_slide(&self, val: &Option<Duration>) -> (result: Result<(), Invalid>)
        ensures
            result == if within(*val, self.min_introduce_slide, self.max_introduce_slide) {
                Ok::<(), Invalid>(())
            } else {
                Err((Invalid::OutOfBounds { min: self.min_introduce_slide, max: self.max_introduce_slide }))
            },
    {
        match val {
            None => Ok(()),
            Some(duration) => validate_duration_range(duration, self.min_introduce_slide, self.max_introduce_slide),
        }
    }
}

fn validate_duration_range(val: &Duration, min: u64, max: u64) -> (result: Result<(), Invalid>)
    ensures
        result == if within(Some(*val), min, max) {
            Ok::<(), Invalid>(())
        } else {
            Err((Invalid::OutOfBounds { min, max }))
        },
{
    let length: u128 = val.as_nanos();
    if min as u128 * 1_000_000_000 <= length && length <= max as u128 * 1_000_000_000 {
        Ok(())
    } else {
        Err(Invalid::OutOfBounds { min, max })
    }
}

/// A time is in its range where it is no shorter than the least and no longer than the most number of
/// seconds, both of which are in it; and no time set is never out of it.
pub proof fn ranges_hold_their_ends(time: Option<Duration>, min: u64, max: u64)
    ensures
        time is None ==> within(time, min, max),
        time matches Some(time) ==> (within(Some(time), min, max) <==> nanos(time) >= min * 1_000_000_000 && nanos(time)
            <= max * 1_000_000_000),
{
}

/// Something is allowed exactly where nothing is wrong with it, and else it is told what is.
pub proof fn problems_are_told(problem: Option<Invalid>)
    ensures
        problem is None <==> verdict(problem) is Ok,
        problem matches Some(what) ==> verdict(problem) == Err::<(), Invalid>(what),
{
}

/// The limits that hold where none are given.
pub proof fn standard_limits(settings: Settings)
    requires
        call_ensures(<Settings as Default>::default, (), settings),
    ensures
        settings.fuiz.max_slides_count == 500 && settings.fuiz.max_title_length == 500
            && settings.fuiz.max_player_count == 1000,
        settings.question.min_title_length == 0 && settings.question.max_title_length == 500,
        settings.question.min_time_limit == 5 && settings.question.max_time_limit == 240,
        settings.question.min_introduce_question == 0 && settings.question.max_introduce_question == 240,
        settings.question.min_introduce_slide == 0 && settings.question.max_introduce_slide == 240,
        settings.multiple_choice.max_answer_count == 8,
        settings.type_answer.max_answer_count == 16,
        settings.order.max_answer_count == 8 && settings.order.max_label_length == 250,
        settings.corkboard.id_length == 16 && settings.corkboard.max_alt_length == 200,
        settings.answer_text.max_length == 500,
{
}

/// A time is refused exactly where it is out of its range, and the range is told.
pub proof fn times_out_of_range_are_refused(
    limits: QuestionSettings,
    time: Option<Duration>,
    limit: Result<(), Invalid>,
    question: Result<(), Invalid>,
    slide: Result<(), Invalid>,
)
    requires
        call_ensures(QuestionSettings::validate_time_limit, (&limits, &time), limit),
        call_ensures(QuestionSettings::validate_introduce_question, (&limits, &time), question),
        call_ensures(QuestionSettings::validate_introduce_slide, (&limits, &time), slide),
    ensures
        limit is Ok <==> (time matches Some(time) ==> limits.min_time_limit * 1_000_000_000 <= nanos(time)
            <= limits.max_time_limit * 1_000_000_000),
        question is Ok <==> (time matches Some(time) ==> limits.min_introduce_question * 1_000_000_000 <= nanos(time)
            <= limits.max_introduce_question * 1_000_000_000),
        slide is Ok <==> (time matches Some(time) ==> limits.min_introduce_slide * 1_000_000_000 <= nanos(time)
            <= limits.max_introduce_slide * 1_000_000_000),
        limit matches Err(problem) ==> problem == (Invalid::OutOfBounds {
            min: limits.min_time_limit,
            max: limits.max_time_limit,
        }),
        question matches Err(problem) ==> problem == (Invalid::OutOfBounds {
            min: limits.min_introduce_question,
            max: limits.max_introduce_question,
        }),
        slide matches Err(problem) ==> problem == (Invalid::OutOfBounds {
            min: limits.min_introduce_slide,
            max: limits.max_introduce_slide,
        }),
{
}

} // verus!
