//! Quiz game logic.
use vstd::prelude::*;
use vstd::std_specs::iter::IteratorSpec;

pub mod formation;
pub mod fuiz;
pub mod game;
pub mod hosting;
pub mod id_map;
pub mod keeping;
pub mod leaderboard;
pub mod names;
pub mod progress;
pub mod random;
pub mod rules;
pub mod seqs;
pub mod session;
pub mod settings;
pub mod teams;
pub mod texts;
pub mod time;
pub mod watcher;

verus! {

/// How things stand, for one participant.
#[derive(Debug)]
pub enum SyncMessage {
    /// In the game as a whole.
    Game(game::SyncMessage),
    /// On a multiple choice slide.
    MultipleChoice(fuiz::multiple_choice::SyncMessage),
    /// On a slide with typed answers.
    TypeAnswer(fuiz::type_answer::SyncMessage),
    /// On a slide about an order.
    Order(fuiz::order::SyncMessage),
}

/// What is new.
#[derive(Debug)]
pub enum UpdateMessage {
    /// In the game as a whole.
    Game(game::UpdateMessage),
    /// On a multiple choice slide.
    MultipleChoice(fuiz::multiple_choice::UpdateMessage),
    /// On a slide with typed answers.
    TypeAnswer(fuiz::type_answer::UpdateMessage),
    /// On a slide about an order.
    Order(fuiz::order::UpdateMessage),
}

/// What comes due at some time.
#[derive(Copy, Clone, Debug, PartialEq, Eq, Structural)]
pub enum AlarmMessage {
    /// For a multiple choice slide.
    MultipleChoice(fuiz::multiple_choice::AlarmMessage),
    /// For a slide with typed answers.
    TypeAnswer(fuiz::type_answer::AlarmMessage),
    /// For a slide about an order.
    Order(fuiz::order::AlarmMessage),
}

/// A list cut off at a limit, together with the number of items it stands for.
#[derive(Debug, Clone)]
pub struct TruncatedVec<T> {
    exact_count: usize,
    items: Vec<T>,
}

impl<T: Clone> Default for TruncatedVec<T> {
    fn default() -> (truncated: Self)
        ensures
            truncated.total() == 0,
            truncated.kept() == Seq::<T>::empty(),
    {
        TruncatedVec { exact_count: 0, items: Vec::new() }
    }
}

impl<T: Clone> TruncatedVec<T> {
    /// The items kept.
    pub closed spec fn kept(&self) -> Seq<T> {
        self.items@
    }

    /// The number of items before truncation.
    pub closed spec fn total(&self) -> usize {
        self.exact_count
    }

    /// Keeps the first `limit` items of `list`.
    pub fn new<I: Iterator<Item = T>>(list: I, limit: usize, exact_count: usize) -> (truncated: Self)
        ensures
            truncated.total() == exact_count,
            truncated.kept().len() <= limit,
            list.obeys_prophetic_iter_laws() ==> truncated.kept() == list.remaining().take(
                if list.remaining().len() < limit { list.remaining().len() as int } else { limit as int },
            ),
    {
        let mut list = list;
        let mut items: Vec<T> = Vec::new();
        let ghost start = list;
        while items.len() < limit
            invariant
                items.len() <= limit,
                list.obeys_prophetic_iter_laws() == start.obeys_prophetic_iter_laws(),
                start.obeys_prophetic_iter_laws() ==> {
                    &&& items.len() <= start.remaining().len()
                    &&& items@ == start.remaining().take(items.len() as int)
                    &&& list.remaining() == start.remaining().skip(items.len() as int)
                },
            ensures
                items.len() <= limit,
                start.obeys_prophetic_iter_laws() ==> items@ == start.remaining().take(
                    if start.remaining().len() < limit { start.remaining().len() as int } else { limit as int },
                ),
            decreases limit - items.len(),
        {
            match list.next() {
                Some(item) => items.push(item),
                None => break,
            }
        }
        TruncatedVec { exact_count, items }
    }

    /// The number of items before truncation.
    pub fn exact_count(&self) -> (count: usize)
        ensures
            count == self.total(),
    {
        self.exact_count
    }

    /// The items kept.
    pub fn items(&self) -> (items: &[T])
        ensures
            items@ == self.kept(),
    {
        self.items.as_slice()
    }

    /// Applies `f` to every item kept.
    pub fn map<F, U>(self, f: F) -> (mapped: TruncatedVec<U>) where F: Fn(T) -> U, U: Clone
        requires
            forall|i: int| 0 <= i < self.kept().len() ==> call_requires(f, (#[trigger] self.kept()[i],)),
        ensures
            mapped.total() == self.total(),
            mapped.kept().len() == self.kept().len(),
            forall|i: int|
                0 <= i < mapped.kept().len() ==> call_ensures(
                    f,
                    (self.kept()[i],),
                    #[trigger] mapped.kept()[i],
                ),
    {
        let ghost before = self.kept();
        assert forall|i: int| 0 <= i < before.len() implies call_requires(f, (#[trigger] before[i],)) by {
            assert(before[i] == self.kept()[i]);
        }
        let mut items: Vec<U> = Vec::new();
        for item in iter: self.items
            invariant
                iter.seq() == before,
                items.len() == iter.index(),
                forall|i: int| 0 <= i < before.len() ==> call_requires(f, (#[trigger] before[i],)),
                forall|i: int|
                    0 <= i < items.len() ==> call_ensures(f, (before[i],), #[trigger] items[i]),
        {
            items.push(f(item));
        }
        TruncatedVec { exact_count: self.exact_count, items }
    }
}

} // verus!
