//! Names of players and teams.
pub mod pets;
pub mod romans;
pub mod word_list;

use heck::ToTitleCase;
use rustrict::CensorStr;
use vstd::hash_map::StringHashMap;
use vstd::prelude::*;
use vstd::string::{StrSliceExecFns, StringExecFns};

use crate::game::Profanity;
use crate::id_map::IdMap;
use crate::watcher::Id;

verus! {

/// What `heck::ToTitleCase::to_title_case` makes of a text.
pub uninterp spec fn title_case(text: Seq<char>) -> Seq<char>;

/// `heck::ToTitleCase::to_title_case`: the words of the text, each capitalised, with one space
/// between them. Which words a text has is left to `title_case`.
#[verifier::external_body]
fn to_title_case(text: &str) -> (cased: String)
    ensures
        cased@ == title_case(text@),
{
    text.to_title_case()
}

/// `pluralizer::pluralize`: the plural of `word`, or its singular where `count` is one. It follows
/// rules that any part of the process may add to, so nothing is promised of the result.
#[verifier::external_body]
fn pluralize(word: &str, count: isize, include_count: bool) -> (plural: String)
{
    pluralizer::pluralize(word, count, include_count)
}

/// Whether `rustrict::is_whitespace` takes a character for blank.
pub uninterp spec fn is_blank(c: char) -> bool;

/// Whether a character is as good as blank at the start of a text.
pub open spec fn is_blank_at_start(c: char) -> bool {
    is_blank(c) || c == '\u{0488}' || c == '\u{0489}'
}

/// `text` from its first character that is not blank on.
pub open spec fn trim_start(text: Seq<char>) -> Seq<char>
    decreases text.len(),
{
    if text.len() > 0 && is_blank_at_start(text.first()) {
        trim_start(text.drop_first())
    } else {
        text
    }
}

/// `text` up to its last character that is not blank.
pub open spec fn trim_end(text: Seq<char>) -> Seq<char>
    decreases text.len(),
{
    if text.len() > 0 && is_blank(text.last()) {
        trim_end(text.drop_last())
    } else {
        text
    }
}

/// `text` without the blanks around it.
pub open spec fn trimmed(text: Seq<char>) -> Seq<char> {
    trim_end(trim_start(text))
}

/// `rustrict::trim_whitespace`: the text without the blanks around it. At the start two more
/// characters count as blank.
#[verifier::external_body]
fn trim_whitespace(text: &str) -> (rest: &str)
    ensures
        rest@ == trimmed(text@),
        rest@.len() > 0 ==> !is_blank(rest@.last()),
{
    rustrict::trim_whitespace(text)
}

/// Whether `rustrict` finds a text inappropriate.
pub uninterp spec fn inappropriate(text: Seq<char>) -> bool;

/// `rustrict::CensorStr::is_inappropriate`: what the built-in word list says of the text.
#[verifier::external_body]
fn is_inappropriate(text: &str) -> (verdict: bool)
    ensures
        verdict == inappropriate(text@),
{
    text.is_inappropriate()
}

/// Words with a space between each two of them.
pub open spec fn joined(words: Seq<&'static str>) -> Seq<char>
    decreases words.len(),
{
    if words.len() == 0 {
        Seq::empty()
    } else if words.len() == 1 {
        words[0]@
    } else {
        joined(words.drop_last()) + " "@ + words.last()@
    }
}

/// The words as one name: a space between each two, in title case.
pub fn name_from_words(words: &Vec<&'static str>) -> (name: String)
    ensures
        name@ == title_case(joined(words@)),
{
    let mut text = String::new();
    let mut i: usize = 0;
    while i < words.len()
        invariant
            i <= words.len(),
            text@ == joined(words@.take(i as int)),
        decreases words.len() - i,
    {
        assert(words@.take(i + 1).drop_last() =~= words@.take(i as int));
        if i > 0 {
            text.append(" ");
        }
        text.append(words[i]);
        i = i + 1;
        assert(text@ =~= joined(words@.take(i as int)));
    }
    assert(words@.take(i as int) =~= words@);
    to_title_case(text.as_str())
}

/// How names are made up.
#[derive(Copy, Clone, Debug, PartialEq, Eq, Structural)]
pub enum NameStyle {
    /// Roman names of two or three words.
    Roman(usize),
    /// Names of pets of two or three words.
    Petname(usize),
}

impl Default for NameStyle {
    fn default() -> (style: Self)
        ensures
            style == NameStyle::Petname(2),
    {
        NameStyle::Petname(2)
    }
}

impl NameStyle {
    /// Whether `words` make a name of this style.
    pub open spec fn makes(self, words: Seq<&'static str>) -> bool {
        match self {
            NameStyle::Roman(count) => romans::is_roman_name(count > 2, false, words),
            NameStyle::Petname(count) => pets::is_pet_name(count as u8, false, words),
        }
    }

    /// A random name of this style.
    pub fn get_name(&self) -> (name: String)
        ensures
            exists|words: Seq<&'static str>| #[trigger]
                self.makes(words) && name@ == title_case(joined(words)),
    {
        let words = match self {
            NameStyle::Roman(count) => romans::roman_name(&romans::NameConfig { praenomen: *count > 2 }),
            NameStyle::Petname(count) => pets::pet_name(
                &pets::NameConfig { parts: #[verifier::truncate] (*count as u8) },
            ),
        };
        assert(self.makes(words@));
        name_from_words(&words)
    }

    /// Whether names of this style have two or three words.
    pub open spec fn is_valid(self) -> bool {
        match self {
            NameStyle::Roman(count) => 2 <= count <= 3,
            NameStyle::Petname(count) => 2 <= count <= 3,
        }
    }

    /// Whether names of this style have two or three words.
    pub fn validate(&self) -> (valid: bool)
        ensures
            valid == self.is_valid(),
    {
        match self {
            NameStyle::Roman(count) => 2 <= *count && *count <= 3,
            NameStyle::Petname(count) => 2 <= *count && *count <= 3,
        }
    }
}

/// Whether `plural` is what a call of `pluralize` with these arguments gave.
pub closed spec fn pluralized(word: Seq<char>, count: isize, include_count: bool, plural: Seq<char>) -> bool {
    exists|asked: &str, answer: String| {
        &&& asked@ == word
        &&& answer@ == plural
        &&& #[trigger] call_ensures(pluralize, (asked, count, include_count), answer)
    }
}

/// The plural of a word, as it is used of three, without the number.
pub fn plural_of(word: &str) -> (plural: String)
    ensures
        pluralized(word@, 3, false, plural@),
{
    let plural = pluralize(word, 3, false);
    assert(call_ensures(pluralize, (word, 3isize, false), plural));
    plural
}

/// A source of names.
pub trait NamingScheme {
    /// A name.
    fn get_name(&self) -> String;

    /// A name for a group: the plural of a name, unless the source has names of its own for groups.
    fn get_plural_name(&self) -> (plural: String)
        default_ensures
            exists|name: String| #[trigger]
                call_ensures(Self::get_name, (self,), name) && pluralized(name@, 3, false, plural@),
    {
        let name = self.get_name();
        assert(call_ensures(Self::get_name, (self,), name));
        plural_of(name.as_str())
    }
}

impl NamingScheme for NameStyle {
    fn get_name(&self) -> (name: String)
        ensures
            exists|words: Seq<&'static str>| #[trigger]
                self.makes(words) && name@ == title_case(joined(words)),
    {
        NameStyle::get_name(self)
    }
}

/// A name of this style for a group is the plural of a name of this style.
pub proof fn groups_are_named_in_the_plural(style: NameStyle, plural: String)
    requires
        call_ensures(<NameStyle as NamingScheme>::get_plural_name, (&style,), plural),
    ensures
        exists|words: Seq<&'static str>| #[trigger]
            style.makes(words) && pluralized(title_case(joined(words)), 3, false, plural@),
{
    let name = choose|name: String| #[trigger]
        call_ensures(<NameStyle as NamingScheme>::get_name, (&style,), name) && pluralized(name@, 3, false, plural@);
    let words = choose|words: Seq<&'static str>| #[trigger] style.makes(words) && name@ == title_case(joined(words));
    assert(style.makes(words));
}

/// Why a name is refused.
#[derive(Copy, Clone, Debug, PartialEq, Eq, Structural)]
pub enum Error {
    /// Someone else has the name already.
    Used,
    /// The player has a name already.
    Assigned,
    /// Nothing but blanks.
    Empty,
    /// The name is inappropriate.
    Sinful,
    /// More than 30 characters.
    TooLong,
}

impl Error {
    /// The error in words.
    pub open spec fn spec_message(self) -> Seq<char> {
        match self {
            Error::Used => "name already in-use"@,
            Error::Assigned => "player has an existing name"@,
            Error::Empty => "name cannot be empty"@,
            Error::Sinful => "name is inappropriate"@,
            Error::TooLong => "name is too long"@,
        }
    }

    /// The error in words.
    pub fn message(&self) -> (text: &'static str)
        ensures
            text@ == self.spec_message(),
    {
        match self {
            Error::Used => "name already in-use",
            Error::Assigned => "player has an existing name",
            Error::Empty => "name cannot be empty",
            Error::Sinful => "name is inappropriate",
            Error::TooLong => "name is too long",
        }
    }
}

/// Who has which name.
pub struct Names {
    mapping: IdMap<String>,
    reverse_mapping: StringHashMap<Id>,
}

/// Names as they are kept: who has a name is found again from who has which.
#[derive(Debug, Clone)]
pub struct NamesSerde {
    /// The name of each participant.
    pub mapping: IdMap<String>,
}

/// Whether no two participants have the same name.
pub open spec fn distinct_names(mapping: Map<Id, String>) -> bool {
    forall|a: Id, b: Id| #[trigger]
        mapping.contains_key(a) && #[trigger] mapping.contains_key(b) && mapping[a]@ == mapping[b]@ ==> a == b
}

/// Whether someone has a name.
pub open spec fn is_held(mapping: Map<Id, String>, name: Seq<char>) -> bool {
    exists|id: Id| #[trigger] mapping.contains_key(id) && mapping[id]@ == name
}

/// The most characters a name may have.
pub const MAX_NAME_LENGTH: usize = 30;

/// What a request for a name comes to: `length` is the number of characters asked for, `name` what
/// is left without the blanks around it, and `refused` tells whether `name` is inappropriate where
/// that matters.
pub open spec fn name_error(names: Names, id: Id, length: nat, name: Seq<char>, refused: bool) -> Option<
    Error,
> {
    if length > MAX_NAME_LENGTH {
        Some(Error::TooLong)
    } else if name.len() == 0 {
        Some(Error::Empty)
    } else if refused {
        Some(Error::Sinful)
    } else if names.holders().contains_key(name) && names.holders()[name] != id {
        Some(Error::Used)
    } else if names@.contains_key(id) {
        Some(Error::Assigned)
    } else {
        None
    }
}

/// Whether `names` takes on the name that `asked` comes to.
pub open spec fn accepts(names: Names, id: Id, asked: Seq<char>, profanity: Profanity) -> bool {
    name_error(
        names,
        id,
        asked.len(),
        trimmed(asked),
        profanity == Profanity::Censor && inappropriate(trimmed(asked)),
    ) is None
}

impl Default for Names {
    fn default() -> (names: Self)
        ensures
            names.wf(),
            names@ == Map::<Id, String>::empty(),
            names.holders() == Map::<Seq<char>, Id>::empty(),
    {
        Names::new()
    }
}

impl View for Names {
    type V = Map<Id, String>;

    closed spec fn view(&self) -> Map<Id, String> {
        self.mapping@
    }
}

impl Names {
    /// Who has a name.
    pub closed spec fn holders(&self) -> Map<Seq<char>, Id> {
        self.reverse_mapping@
    }

    /// The two ways to look a name up agree, so no two participants share a name.
    pub open spec fn wf(&self) -> bool {
        &&& forall|id: Id| #[trigger]
            self@.contains_key(id) ==> self.holders().contains_key(self@[id]@)
                && self.holders()[self@[id]@] == id
        &&& forall|name: Seq<char>| #[trigger]
            self.holders().contains_key(name) ==> self@.contains_key(self.holders()[name])
                && self@[self.holders()[name]]@ == name
    }

    /// Nobody has a name.
    pub fn new() -> (names: Self)
        ensures
            names.wf(),
            names@ == Map::<Id, String>::empty(),
            names.holders() == Map::<Seq<char>, Id>::empty(),
    {
        Names { mapping: IdMap::new(), reverse_mapping: StringHashMap::new() }
    }

    /// Whether these are the names kept in `mapping`: each is held by someone who has it.
    pub open spec fn restored(&self, mapping: Map<Id, String>) -> bool {
        &&& self@ == mapping
        &&& forall|name: Seq<char>| #[trigger] self.holders().contains_key(name) <==> is_held(mapping, name)
        &&& forall|name: Seq<char>| #[trigger]
            self.holders().contains_key(name) ==> mapping.contains_key(self.holders()[name])
                && mapping[self.holders()[name]]@ == name
    }

    /// The names that were kept.
    pub fn from(serde: NamesSerde) -> (names: Self)
        ensures
            names.restored(serde.mapping@),
            distinct_names(serde.mapping@) ==> names.wf(),
    {
        let mapping = serde.mapping;
        let ids = mapping.keys();
        let mut reverse_mapping: StringHashMap<Id> = StringHashMap::new();
        let mut i: usize = 0;
        while i < ids.len()
            invariant
                i <= ids.len(),
                ids@.to_set() == mapping@.dom(),
                forall|j: int| 0 <= j < i ==> reverse_mapping@.contains_key(mapping@[#[trigger] ids@[j]]@),
                forall|name: Seq<char>| #[trigger]
                    reverse_mapping@.contains_key(name) ==> mapping@.contains_key(reverse_mapping@[name])
                        && mapping@[reverse_mapping@[name]]@ == name,
            decreases ids.len() - i,
        {
            let id = ids[i];
            assert(ids@.to_set().contains(id));
            if let Some(name) = mapping.get(id) {
                reverse_mapping.insert(name.clone(), id);
            }
            i = i + 1;
        }
        let names = Names { mapping, reverse_mapping };
        proof {
            assert forall|name: Seq<char>| is_held(mapping@, name) implies #[trigger] names.holders().contains_key(
                name,
            ) by {
                let id = choose|id: Id| #[trigger] mapping@.contains_key(id) && mapping@[id]@ == name;
                assert(ids@.to_set().contains(id));
                let j = choose|j: int| 0 <= j < ids@.len() && ids@[j] == id;
                assert(reverse_mapping@.contains_key(mapping@[ids@[j]]@));
            }
            if distinct_names(mapping@) {
                assert forall|id: Id| #[trigger] names@.contains_key(id) implies names.holders().contains_key(
                    names@[id]@,
                ) && names.holders()[names@[id]@] == id by {
                    assert(is_held(mapping@, mapping@[id]@));
                }
            }
        }
        names
    }

    /// The names that were kept; `None` where two participants have the same.
    pub fn restore(serde: NamesSerde) -> (names: Option<Self>)
        ensures
            match names {
                Some(names) => names.wf() && names.restored(serde.mapping@),
                None => !distinct_names(serde.mapping@),
            },
    {
        let ghost kept = serde.mapping@;
        let names = Names::from(serde);
        let ids = names.mapping.keys();
        let mut i: usize = 0;
        while i < ids.len()
            invariant
                i <= ids.len(),
                ids@.to_set() == names@.dom(),
                kept == serde.mapping@,
                names@ == kept,
                names.restored(kept),
                forall|j: int|
                    0 <= j < i ==> names.holders().contains_key(names@[#[trigger] ids@[j]]@)
                        && names.holders()[names@[ids@[j]]@] == ids@[j],
            decreases ids.len() - i,
        {
            let id = ids[i];
            assert(ids@.to_set().contains(id));
            if let Some(name) = names.mapping.get(id) {
                assert(is_held(kept, name@));
                if let Some(holder) = names.get_id(name.as_str()) {
                    if holder != id {
                        assert(names.holders().contains_key(name@));
                        assert(kept.contains_key(id) && kept.contains_key(holder));
                        return None;
                    }
                }
            }
            i = i + 1;
        }
        proof {
            assert forall|id: Id| #[trigger] names@.contains_key(id) implies names.holders().contains_key(names@[id]@)
                && names.holders()[names@[id]@] == id by {
                assert(ids@.to_set().contains(id));
                let j = choose|j: int| 0 <= j < ids@.len() && ids@[j] == id;
                assert(names.holders()[names@[ids@[j]]@] == ids@[j]);
            }
        }
        Some(names)
    }

    /// The names, to be kept.
    pub fn into_serde(self) -> (serde: NamesSerde)
        ensures
            serde.mapping@ == self@,
            self.wf() ==> self.restored(serde.mapping@),
    {
        proof {
            if self.wf() {
                assert forall|name: Seq<char>| #[trigger] self.holders().contains_key(name) <==> is_held(self@, name) by {
                    if self.holders().contains_key(name) {
                        assert(self@.contains_key(self.holders()[name]));
                    }
                }
            }
        }
        NamesSerde { mapping: self.mapping }
    }

    /// The name of a participant.
    pub fn get_name(&self, id: &Id) -> (name: Option<&str>)
        ensures
            match name {
                Some(name) => self@.contains_key(*id) && name@ == self@[*id]@,
                None => !self@.contains_key(*id),
            },
    {
        match self.mapping.get(*id) {
            Some(name) => Some(name.as_str()),
            None => None,
        }
    }

    /// The name of a participant, or a stand-in.
    pub open spec fn name_or_unknown(&self, id: Id) -> Seq<char> {
        if self@.contains_key(id) {
            self@[id]@
        } else {
            "Unknown"@
        }
    }

    /// The name of a participant, or a stand-in.
    pub fn get_name_or_unknown(&self, id: &Id) -> (name: &str)
        ensures
            name@ == self.name_or_unknown(*id),
    {
        match self.get_name(id) {
            Some(name) => name,
            None => "Unknown",
        }
    }

    /// Gives a participant a name, unless there is something against it.
    pub fn set_name<'a>(&mut self, id: Id, name: &'a str, profanity: Profanity) -> (result: Result<
        &'a str,
        Error,
    >)
        requires
            old(self).wf(),
        ensures
            final(self).wf(),
            match name_error(
                *old(self),
                id,
                name@.len(),
                trimmed(name@),
                profanity == Profanity::Censor && inappropriate(trimmed(name@)),
            ) {
                Some(error) => result == Err::<&'a str, Error>(error) && *final(self) == *old(self),
                None => {
                    &&& result is Ok
                    &&& result->Ok_0@ == trimmed(name@)
                    &&& old(self).named(final(self), id, trimmed(name@))
                },
            },
    {
        let length: usize = name.unicode_len();
        let rest = trim_whitespace(name);
        let refused = length <= MAX_NAME_LENGTH && !rest.is_empty() && matches!(profanity, Profanity::Censor)
            && is_inappropriate(rest);
        match self.claim_name(id, length, rest, refused) {
            Ok(()) => Ok(rest),
            Err(error) => Err(error),
        }
    }

    /// Whether `after` is `self` with a name for one more participant.
    pub open spec fn named(&self, after: &Names, id: Id, name: Seq<char>) -> bool {
        &&& after@.dom() == self@.dom().insert(id)
        &&& after@[id]@ == name
        &&& forall|other: Id| other != id && #[trigger] self@.contains_key(other) ==> after@[other] == self@[other]
        &&& after.holders() == self.holders().insert(name, id)
    }

    /// Gives a participant a name, unless there is something against it: `length` is the number of
    /// characters asked for, `name` what is left without the blanks around it, and `refused` tells
    /// whether `name` is inappropriate where that matters.
    pub fn claim_name(&mut self, id: Id, length: usize, name: &str, refused: bool) -> (result: Result<
        (),
        Error,
    >)
        requires
            old(self).wf(),
        ensures
            final(self).wf(),
            match name_error(*old(self), id, length as nat, name@, refused) {
                Some(error) => result == Err::<(), Error>(error) && *final(self) == *old(self),
                None => result == Ok::<(), Error>(()) && old(self).named(final(self), id, name@),
            },
    {
        if length > MAX_NAME_LENGTH {
            return Err(Error::TooLong);
        }
        if name.is_empty() {
            return Err(Error::Empty);
        }
        if refused {
            return Err(Error::Sinful);
        }
        if let Some(holder) = self.get_id(name) {
            if holder != id {
                return Err(Error::Used);
            }
        }
        if self.mapping.contains_key(id) {
            return Err(Error::Assigned);
        }
        assert(!self.holders().contains_key(name@));
        self.mapping.insert(id, name.to_owned());
        self.reverse_mapping.insert(name.to_owned(), id);
        proof {
            assert(self@.dom() =~= old(self)@.dom().insert(id));
            assert forall|other: Id| #[trigger] self@.contains_key(other) implies
                self.holders().contains_key(self@[other]@) && self.holders()[self@[other]@] == other by {
                if other != id {
                    assert(old(self)@.contains_key(other));
                }
            }
            assert forall|held: Seq<char>| #[trigger] self.holders().contains_key(held) implies
                self@.contains_key(self.holders()[held]) && self@[self.holders()[held]]@ == held by {
                if held != name@ {
                    assert(old(self).holders().contains_key(held));
                }
            }
        }
        Ok(())
    }

    /// Who has a name.
    pub fn get_id(&self, name: &str) -> (id: Option<Id>)
        ensures
            id == if self.holders().contains_key(name@) {
                Some(self.holders()[name@])
            } else {
                None
            },
    {
        match self.reverse_mapping.get(name) {
            Some(id) => Some(*id),
            None => None,
        }
    }
}

/// No two participants have the same name.
pub proof fn names_are_unique(names: Names, a: Id, b: Id)
    requires
        names.wf(),
        names@.contains_key(a),
        names@.contains_key(b),
        names@[a]@ == names@[b]@,
    ensures
        a == b,
{
}

/// Looking a participant up by name and by identifier are inverse to each other.
pub proof fn name_and_id_lookups_agree(names: Names, id: Id, name: Seq<char>)
    requires
        names.wf(),
    ensures
        (names@.contains_key(id) && names@[id]@ == name) <==> (names.holders().contains_key(name)
            && names.holders()[name] == id),
{
}

/// Names that are kept come back as they were, looked up either way.
pub proof fn kept_names_come_back(names: Names, back: Names)
    requires
        names.wf(),
        back.restored(names@),
    ensures
        back.wf(),
        back@ == names@,
        back.holders() == names.holders(),
{
    assert(distinct_names(names@));
    assert forall|name: Seq<char>| #[trigger] back.holders().contains_key(name) <==> names.holders().contains_key(name) by {
        if names.holders().contains_key(name) {
            assert(names@.contains_key(names.holders()[name]));
            assert(is_held(names@, name));
        }
    }
    assert(back.holders() =~= names.holders());
    assert forall|id: Id| #[trigger] back@.contains_key(id) implies back.holders().contains_key(back@[id]@)
        && back.holders()[back@[id]@] == id by {
        assert(is_held(names@, names@[id]@));
    }
}

proof fn lemma_trimmed_len(text: Seq<char>)
    ensures
        trim_start(text).len() <= text.len(),
        trim_end(text).len() <= text.len(),
    decreases text.len(),
{
    if text.len() > 0 {
        lemma_trimmed_len(text.drop_first());
        lemma_trimmed_len(text.drop_last());
    }
}

/// What is left of an accepted name has between one and 30 characters, and is not inappropriate where
/// that matters.
pub proof fn accepted_names_are_fit(names: Names, id: Id, asked: Seq<char>, profanity: Profanity)
    requires
        accepts(names, id, asked, profanity),
    ensures
        0 < trimmed(asked).len() <= MAX_NAME_LENGTH,
        profanity == Profanity::Censor ==> !inappropriate(trimmed(asked)),
{
    lemma_trimmed_len(asked);
    lemma_trimmed_len(trim_start(asked));
}

/// A name that is taken on has between one and 30 characters.
pub proof fn accepted_names_are_short(before: Names, after: Names, id: Id, asked: Seq<char>, refused: bool)
    requires
        name_error(before, id, asked.len(), trimmed(asked), refused) is None,
        before.named(&after, id, trimmed(asked)),
    ensures
        0 < after@[id]@.len() <= MAX_NAME_LENGTH,
{
    lemma_trimmed_len(asked);
    lemma_trimmed_len(trim_start(asked));
}

/// A name is given exactly where it has at most thirty characters as it is asked for, something is left of
/// it without the blanks around it, it is not refused, nobody else has it, and whoever asks has none; where
/// several things are against it, the first of these is told.
pub proof fn what_stands_against_a_name(names: Names, id: Id, length: nat, name: Seq<char>, refused: bool)
    requires
        names.wf(),
    ensures
        ({
            let taken = exists|other: Id| other != id && #[trigger] names@.contains_key(other) && names@[other]@ == name;
            let error = name_error(names, id, length, name, refused);
            &&& error == Some(Error::TooLong) <==> length > 30
            &&& error == Some(Error::Empty) <==> length <= 30 && name.len() == 0
            &&& error == Some(Error::Sinful) <==> length <= 30 && name.len() > 0 && refused
            &&& error == Some(Error::Used) <==> length <= 30 && name.len() > 0 && !refused && taken
            &&& error == Some(Error::Assigned) <==> length <= 30 && name.len() > 0 && !refused && !taken
                && names@.contains_key(id)
            &&& error is None <==> length <= 30 && name.len() > 0 && !refused && !taken && !names@.contains_key(id)
        }),
{
    if names.holders().contains_key(name) {
        assert(names@.contains_key(names.holders()[name]));
    }
}

/// Names are refused as inappropriate only where that matters.
pub proof fn words_are_only_refused_where_that_matters(names: Names, id: Id, asked: Seq<char>, profanity: Profanity)
    requires
        names.wf(),
    ensures
        accepts(names, id, asked, profanity) <==> {
            &&& asked.len() <= 30
            &&& trimmed(asked).len() > 0
            &&& profanity == Profanity::Censor ==> !inappropriate(trimmed(asked))
            &&& !names@.contains_key(id)
            &&& forall|other: Id| #[trigger] names@.contains_key(other) ==> names@[other]@ != trimmed(asked)
        },
{
    if names.holders().contains_key(trimmed(asked)) {
        assert(names@.contains_key(names.holders()[trimmed(asked)]));
    }
}

/// Giving a name gives it to one participant and takes nothing from anyone.
pub proof fn one_participant_gets_the_name(before: Names, after: Names, id: Id, name: Seq<char>, other: Id)
    requires
        before.named(&after, id, name),
    ensures
        after@.contains_key(id) && after@[id]@ == name,
        after.holders().contains_key(name) && after.holders()[name] == id,
        other != id ==> (after@.contains_key(other) <==> before@.contains_key(other)),
        other != id && before@.contains_key(other) ==> after@[other] == before@[other],
{
    assert(after@.dom().contains(id));
    assert(after@.dom().contains(other) <==> before@.dom().contains(other) || other == id);
}

proof fn lemma_trim_start_of(text: Seq<char>) -> (from: int)
    ensures
        0 <= from <= text.len(),
        trim_start(text) == text.subrange(from, text.len() as int),
        forall|i: int| 0 <= i < from ==> is_blank_at_start(#[trigger] text[i]),
        from < text.len() ==> !is_blank_at_start(text[from]),
    decreases text.len(),
{
    if text.len() > 0 && is_blank_at_start(text.first()) {
        let rest = text.drop_first();
        let from = lemma_trim_start_of(rest);
        assert(rest.subrange(from, rest.len() as int) =~= text.subrange(from + 1, text.len() as int));
        assert forall|i: int| 0 <= i < from + 1 implies is_blank_at_start(#[trigger] text[i]) by {
            if i > 0 {
                assert(text[i] == rest[i - 1]);
            }
        }
        if from < rest.len() {
            assert(rest[from] == text[from + 1]);
        }
        from + 1
    } else {
        assert(text.subrange(0, text.len() as int) =~= text);
        0
    }
}

proof fn lemma_trim_end_of(text: Seq<char>) -> (to: int)
    ensures
        0 <= to <= text.len(),
        trim_end(text) == text.subrange(0, to),
        forall|i: int| to <= i < text.len() ==> is_blank(#[trigger] text[i]),
        to > 0 ==> !is_blank(text[to - 1]),
    decreases text.len(),
{
    if text.len() > 0 && is_blank(text.last()) {
        let rest = text.drop_last();
        let to = lemma_trim_end_of(rest);
        assert(rest.subrange(0, to) =~= text.subrange(0, to));
        assert forall|i: int| to <= i < text.len() implies is_blank(#[trigger] text[i]) by {
            if i < rest.len() {
                assert(text[i] == rest[i]);
            }
        }
        to
    } else {
        assert(text.subrange(0, text.len() as int) =~= text);
        text.len() as int
    }
}

/// Only blanks at both ends of a name are taken off, and all of them.
pub proof fn only_blanks_are_taken_off(name: Seq<char>)
    ensures
        trimmed(name).len() > 0 ==> !is_blank(trimmed(name).first()) && !is_blank(trimmed(name).last()),
        exists|before: Seq<char>, after: Seq<char>| {
            &&& name == #[trigger] (before + trimmed(name) + after)
            &&& forall|i: int|
                0 <= i < before.len() ==> is_blank(#[trigger] before[i]) || before[i] == '\u{0488}' || before[i]
                    == '\u{0489}'
            &&& forall|i: int| 0 <= i < after.len() ==> is_blank(#[trigger] after[i])
        },
{
    let from = lemma_trim_start_of(name);
    let rest = name.subrange(from, name.len() as int);
    let to = lemma_trim_end_of(rest);
    let before = name.subrange(0, from);
    let after = rest.subrange(to, rest.len() as int);
    assert(name =~= before + trimmed(name) + after);
    assert forall|i: int| 0 <= i < before.len() implies is_blank(#[trigger] before[i]) || before[i] == '\u{0488}'
        || before[i] == '\u{0489}' by {
        assert(is_blank_at_start(name[i]));
    }
    assert forall|i: int| 0 <= i < after.len() implies is_blank(#[trigger] after[i]) by {
        assert(after[i] == rest[to + i]);
    }
    if trimmed(name).len() > 0 {
        assert(trimmed(name).first() == name[from]);
        assert(trimmed(name).last() == rest[to - 1]);
    }
}

/// Names are made of two or three words.
pub proof fn names_have_two_or_three_words(style: NameStyle, words: Seq<&'static str>)
    requires
        style.is_valid(),
        style.makes(words),
    ensures
        2 <= words.len() <= 3,
        style matches NameStyle::Roman(count) ==> words.len() == count,
        style matches NameStyle::Petname(count) ==> words.len() == count,
{
}

/// Words are put behind each other with a blank between two of them.
pub proof fn words_are_joined_by_blanks(words: Seq<&'static str>, word: &'static str)
    ensures
        joined(Seq::<&'static str>::empty()).len() == 0,
        words.len() == 0 ==> joined(words.push(word)) == word@,
        words.len() > 0 ==> joined(words.push(word)) == joined(words) + seq![' '] + word@,
{
    reveal_strlit(" ");
    assert(words.push(word).drop_last() =~= words);
    assert(" "@ =~= seq![' ']);
}

/// Someone without a name is called unknown.
pub proof fn those_without_a_name_are_unknown(names: Names, id: Id)
    ensures
        names@.contains_key(id) ==> names.name_or_unknown(id) == names@[id]@,
        !names@.contains_key(id) ==> names.name_or_unknown(id) == seq!['U', 'n', 'k', 'n', 'o', 'w', 'n'],
{
    reveal_strlit("Unknown");
    assert("Unknown"@ =~= seq!['U', 'n', 'k', 'n', 'o', 'w', 'n']);
}

/// Names are named after two words by default, and a style is valid with two or three words.
pub proof fn styles_have_two_or_three_words(style: NameStyle, valid: bool, standard: NameStyle)
    requires
        call_ensures(NameStyle::validate, (&style,), valid),
        call_ensures(<NameStyle as Default>::default, (), standard),
    ensures
        style matches NameStyle::Roman(count) ==> (valid <==> count == 2 || count == 3),
        style matches NameStyle::Petname(count) ==> (valid <==> count == 2 || count == 3),
        standard == NameStyle::Petname(2),
{
}

/// A name leads to whoever has it, and from there back to the name.
pub proof fn names_lead_there_and_back(names: Names, id: Id, name: Option<&str>, text: &str, holder: Option<Id>)
    requires
        names.wf(),
        call_ensures(Names::get_name, (&names, &id), name),
        call_ensures(Names::get_id, (&names, text), holder),
    ensures
        name is Some <==> names@.contains_key(id),
        name matches Some(name) ==> name@ == names@[id]@,
        holder == Some(id) <==> name is Some && name->0@ == text@,
{
    name_and_id_lookups_agree(names, id, text@);
}

} // verus!
