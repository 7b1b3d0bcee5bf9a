//! Drawing words from lists.
use vstd::prelude::*;

use crate::random::random_below;

verus! {

/// Whether a word is in a list, which holds four words to a row.
pub open spec fn lists(rows: Seq<[&'static str; 4]>, word: &'static str) -> bool {
    exists|i: int, j: int| 0 <= i < rows.len() && 0 <= j < 4 && #[trigger] rows[i][j] == word
}

/// Whether a word was drawn from a list: a row first, then a place in it.
pub closed spec fn was_drawn(rows: Seq<[&'static str; 4]>, word: &'static str) -> bool {
    exists|i: usize, j: usize| {
        &&& #[trigger] call_ensures(random_below, (rows.len() as usize,), i)
        &&& #[trigger] call_ensures(random_below, (4usize,), j)
        &&& i < rows.len()
        &&& j < 4
        &&& word == rows[i as int][j as int]
    }
}

/// A word that was drawn from a list is in it.
pub proof fn drawn_words_are_listed(rows: Seq<[&'static str; 4]>, word: &'static str)
    requires
        was_drawn(rows, word),
    ensures
        lists(rows, word),
{
}

/// A word drawn from a list.
pub fn random_choice<const N: usize>(rows: &[[&'static str; 4]; N]) -> (word: &'static str)
    requires
        0 < N,
    ensures
        was_drawn(rows@, word),
        lists(rows@, word),
{
    let i: usize = random_below(N);
    let j: usize = random_below(4);
    assert(rows@.len() == N);
    assert(call_ensures(random_below, (rows@.len() as usize,), i));
    assert(call_ensures(random_below, (4usize,), j));
    let row = rows[i];
    assert(rows@[i as int][j as int] == row[j as int]);
    row[j]
}

} // verus!
