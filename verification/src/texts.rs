//! Texts, lists of them, and numbers in decimal.
use vstd::prelude::*;
use vstd::string::{StrSliceExecFns, StringExecFns};

verus! {

/// The texts as sequences of characters.
pub open spec fn texts(list: Seq<String>) -> Seq<Seq<char>> {
    list.map_values(|text: String| text@)
}

/// A copy of the list.
pub fn copy_texts(list: &Vec<String>) -> (copy: Vec<String>)
    ensures
        copy@ == list@,
{
    let mut copy: Vec<String> = Vec::new();
    let mut i: usize = 0;
    while i < list.len()
        invariant
            i <= list.len(),
            copy@ == list@.take(i as int),
        decreases list.len() - i,
    {
        copy.push(list[i].clone());
        i = i + 1;
        assert(copy@ =~= list@.take(i as int));
    }
    assert(copy@ =~= list@);
    copy
}

/// Whether the two lists hold the same texts in the same order.
pub fn same_texts(a: &Vec<String>, b: &Vec<String>) -> (same: bool)
    ensures
        same == (texts(a@) == texts(b@)),
{
    if a.len() != b.len() {
        assert(texts(a@).len() != texts(b@).len());
        return false;
    }
    let mut i: usize = 0;
    while i < a.len()
        invariant
            i <= a.len(),
            a.len() == b.len(),
            forall|j: int| 0 <= j < i ==> a@[j]@ == b@[j]@,
        decreases a.len() - i,
    {
        if a[i] != b[i] {
            assert(texts(a@)[i as int] != texts(b@)[i as int]);
            return false;
        }
        i = i + 1;
    }
    assert(texts(a@) =~= texts(b@));
    true
}

/// Whether a text is in the list.
pub fn has_text(list: &Vec<String>, text: &String) -> (found: bool)
    ensures
        found == texts(list@).contains(text@),
{
    let mut i: usize = 0;
    while i < list.len()
        invariant
            i <= list.len(),
            forall|j: int| 0 <= j < i ==> texts(list@)[j] != text@,
        decreases list.len() - i,
    {
        if list[i] == *text {
            assert(texts(list@)[i as int] == text@);
            return true;
        }
        i = i + 1;
    }
    false
}

/// Whether every text of one list is in another.
pub fn has_texts(list: &Vec<String>, others: &Vec<String>) -> (result: bool)
    ensures
        result == (forall|i: int| 0 <= i < others@.len() ==> texts(list@).contains((#[trigger] others@[i])@)),
{
    let mut i: usize = 0;
    while i < others.len()
        invariant
            i <= others.len(),
            forall|j: int| 0 <= j < i ==> texts(list@).contains((#[trigger] others@[j])@),
        decreases others.len() - i,
    {
        if !has_text(list, &others[i]) {
            assert(!texts(list@).contains(others@[i as int]@));
            return false;
        }
        i = i + 1;
    }
    true
}

/// Whether no text is in the list twice.
pub fn are_distinct(list: &Vec<String>) -> (distinct: bool)
    ensures
        distinct == texts(list@).no_duplicates(),
{
    let mut i: usize = 0;
    while i < list.len()
        invariant
            i <= list.len(),
            forall|a: int, b: int| 0 <= a < b < list.len() && a < i ==> texts(list@)[a] != texts(list@)[b],
        decreases list.len() - i,
    {
        let mut j: usize = i + 1;
        while j < list.len()
            invariant
                i < j <= list.len(),
                forall|b: int| i < b < j ==> texts(list@)[i as int] != texts(list@)[b],
            decreases list.len() - j,
        {
            if list[i] == list[j] {
                assert(texts(list@)[i as int] == texts(list@)[j as int]);
                return false;
            }
            j = j + 1;
        }
        i = i + 1;
    }
    true
}

// ---- numbers ----

/// A digit.
pub open spec fn digit(n: nat) -> char {
    if n == 0 {
        '0'
    } else if n == 1 {
        '1'
    } else if n == 2 {
        '2'
    } else if n == 3 {
        '3'
    } else if n == 4 {
        '4'
    } else if n == 5 {
        '5'
    } else if n == 6 {
        '6'
    } else if n == 7 {
        '7'
    } else if n == 8 {
        '8'
    } else {
        '9'
    }
}

/// A number in decimal.
pub open spec fn decimal(n: nat) -> Seq<char>
    decreases n,
{
    if n < 10 {
        seq![digit(n)]
    } else {
        decimal(n / 10).push(digit(n % 10))
    }
}

fn digit_text(n: u128) -> (text: &'static str)
    requires
        n < 10,
    ensures
        text@ == seq![digit(n as nat)],
{
    proof {
        reveal_strlit("0");
        reveal_strlit("1");
        reveal_strlit("2");
        reveal_strlit("3");
        reveal_strlit("4");
        reveal_strlit("5");
        reveal_strlit("6");
        reveal_strlit("7");
        reveal_strlit("8");
        reveal_strlit("9");
    }
    let text = match n {
        0 => "0",
        1 => "1",
        2 => "2",
        3 => "3",
        4 => "4",
        5 => "5",
        6 => "6",
        7 => "7",
        8 => "8",
        _ => "9",
    };
    assert(text@ =~= seq![digit(n as nat)]);
    text
}

/// A number in decimal.
pub fn decimal_text(n: u128) -> (text: String)
    ensures
        text@ == decimal(n as nat),
    decreases n,
{
    if n < 10 {
        digit_text(n).to_owned()
    } else {
        let mut text = decimal_text(n / 10);
        text.append(digit_text(n % 10));
        assert(text@ =~= decimal(n as nat));
        text
    }
}

spec fn is_digit(c: char) -> bool {
    exists|d: nat| d < 10 && c == #[trigger] digit(d)
}

spec fn digit_value(c: char) -> nat {
    choose|d: nat| d < 10 && c == #[trigger] digit(d)
}

/// The number that digits stand for.
spec fn value(text: Seq<char>) -> nat
    decreases text.len(),
{
    if text.len() == 0 {
        0
    } else {
        value(text.drop_last()) * 10 + digit_value(text.last())
    }
}

proof fn lemma_digit(d: nat)
    requires
        d < 10,
    ensures
        is_digit(digit(d)),
        digit_value(digit(d)) == d,
{
}

proof fn lemma_value_of_decimal(n: nat)
    ensures
        value(decimal(n)) == n,
        forall|i: int| 0 <= i < decimal(n).len() ==> is_digit(#[trigger] decimal(n)[i]),
    decreases n,
{
    if n < 10 {
        lemma_digit(n);
        assert(decimal(n).drop_last() =~= Seq::<char>::empty());
        assert(value(Seq::<char>::empty()) == 0);
    } else {
        lemma_value_of_decimal(n / 10);
        lemma_digit(n % 10);
        assert(decimal(n).drop_last() =~= decimal(n / 10));
    }
}

/// The start of a text of digits stands for no more than the whole.
proof fn lemma_value_of_start(text: Seq<char>, k: int)
    requires
        0 <= k <= text.len(),
    ensures
        value(text.take(k)) <= value(text),
    decreases text.len() - k,
{
    if k < text.len() {
        assert(text.take(k + 1).drop_last() =~= text.take(k));
        assert(value(text.take(k)) <= value(text.take(k + 1)));
        lemma_value_of_start(text, k + 1);
    } else {
        assert(text.take(k) =~= text);
    }
}

fn read_digit(c: char) -> (read: Option<u128>)
    ensures
        match read {
            Some(d) => d < 10 && c == digit(d as nat),
            None => !is_digit(c),
        },
{
    match c {
        '0' => Some(0),
        '1' => Some(1),
        '2' => Some(2),
        '3' => Some(3),
        '4' => Some(4),
        '5' => Some(5),
        '6' => Some(6),
        '7' => Some(7),
        '8' => Some(8),
        '9' => Some(9),
        _ => None,
    }
}

/// Whether a text is a number in decimal, without zeros in front of it.
pub open spec fn is_decimal(text: Seq<char>) -> bool {
    exists|n: u128| text == #[trigger] decimal(n as nat)
}

/// Reads a number in decimal, without zeros in front of it.
pub fn read_decimal(text: &str) -> (number: Option<u128>)
    ensures
        match number {
            Some(n) => text@ == decimal(n as nat),
            None => !is_decimal(text@),
        },
{
    let len: usize = text.unicode_len();
    let mut number: u128 = 0;
    let mut i: usize = 0;
    assert(text@.take(0) =~= Seq::<char>::empty());
    while i < len
        invariant
            i <= len,
            len == text@.len(),
            number == value(text@.take(i as int)),
        decreases len - i,
    {
        let c = text.get_char(i);
        let ghost longer = text@.take(i + 1);
        assert(longer.drop_last() =~= text@.take(i as int));
        assert(longer.last() == c);
        match read_digit(c) {
            Some(d) => {
                proof {
                    lemma_digit(d as nat);
                }
                if number > (u128::MAX - d) / 10 {
                    assert(number * 10 + d > u128::MAX) by (nonlinear_arith)
                        requires
                            number > (u128::MAX - d) / 10,
                            d < 10,
                    ;
                    proof {
                        assert forall|n: u128| text@ != #[trigger] decimal(n as nat) by {
                            lemma_value_of_decimal(n as nat);
                            lemma_value_of_start(text@, i + 1);
                        }
                    }
                    return None;
                }
                number = number * 10 + d;
            },
            None => {
                proof {
                    assert forall|n: u128| text@ != #[trigger] decimal(n as nat) by {
                        lemma_value_of_decimal(n as nat);
                        assert(text@[i as int] == c);
                    }
                }
                return None;
            },
        }
        i = i + 1;
    }
    assert(text@.take(i as int) =~= text@);
    proof {
        assert forall|n: u128| text@ == #[trigger] decimal(n as nat) implies n == number by {
            lemma_value_of_decimal(n as nat);
        }
    }
    if decimal_text(number) == text.to_owned() {
        Some(number)
    } else {
        None
    }
}

/// A number is read back from its text, and no two numbers have the same text.
pub proof fn numbers_are_read_back(a: u128, b: u128)
    ensures
        is_decimal(decimal(a as nat)),
        decimal(a as nat) == decimal(b as nat) ==> a == b,
{
    lemma_value_of_decimal(a as nat);
    lemma_value_of_decimal(b as nat);
}

// ---- parts of texts ----

/// Whether a text starts with another.
pub open spec fn has_start(text: Seq<char>, start: Seq<char>) -> bool {
    start.len() <= text.len() && text.take(start.len() as int) == start
}

/// Whether a text starts with another.
pub fn starts_with(text: &str, start: &str) -> (result: bool)
    ensures
        result == has_start(text@, start@),
{
    let len: usize = start.unicode_len();
    if text.unicode_len() < len {
        return false;
    }
    let mut i: usize = 0;
    while i < len
        invariant
            i <= len,
            len == start@.len(),
            len <= text@.len(),
            forall|j: int| 0 <= j < i ==> text@[j] == start@[j],
        decreases len - i,
    {
        if text.get_char(i) != start.get_char(i) {
            assert(text@.take(start@.len() as int)[i as int] != start@[i as int]);
            return false;
        }
        i = i + 1;
    }
    assert(text@.take(start@.len() as int) =~= start@);
    true
}

/// What follows the last slash of a text, or all of it where there is none.
pub open spec fn after_last_slash(text: Seq<char>) -> Seq<char>
    decreases text.len(),
{
    if text.len() == 0 || text.last() == '/' {
        Seq::empty()
    } else {
        after_last_slash(text.drop_last()).push(text.last())
    }
}

proof fn lemma_after_last_slash(text: Seq<char>, start: int)
    requires
        0 <= start <= text.len(),
        forall|j: int| start <= j < text.len() ==> text[j] != '/',
        start > 0 ==> text[start - 1] == '/',
    ensures
        after_last_slash(text) == text.skip(start),
    decreases text.len() - start,
{
    if start == text.len() {
        assert(text.skip(start) =~= Seq::<char>::empty());
    } else {
        lemma_after_last_slash(text.drop_last(), start);
        assert(text.skip(start) =~= text.drop_last().skip(start).push(text.last()));
    }
}

/// What follows the last slash of a text, or all of it where there is none.
pub fn last_segment(text: &str) -> (segment: &str)
    ensures
        segment@ == after_last_slash(text@),
{
    let len: usize = text.unicode_len();
    let mut start: usize = len;
    while start > 0 && text.get_char(start - 1) != '/'
        invariant
            start <= len,
            len == text@.len(),
            forall|j: int| start <= j < len ==> text@[j] != '/',
        decreases start,
    {
        start = start - 1;
    }
    proof {
        lemma_after_last_slash(text@, start as int);
        assert(text@.skip(start as int) =~= text@.subrange(start as int, len as int));
    }
    text.substring_char(start, len)
}

/// A number is written by its digits: those of a tenth of it, where there are any, and then the last one.
pub proof fn numbers_are_written_by_digits(n: nat, d: nat)
    requires
        d < 10,
    ensures
        digit(d) as u32 == 48 + d,
        decimal(d) == seq![digit(d)],
        n > 0 ==> decimal(10 * n + d) == decimal(n).push(digit(d)),
{
    assert((10 * n + d) / 10 == n);
    assert((10 * n + d) % 10 == d);
}

/// What follows the last slash has no slash, and what is before it is nothing or ends with one.
pub proof fn segments_have_no_slash(text: Seq<char>)
    ensures
        !after_last_slash(text).contains('/'),
        after_last_slash(text).len() <= text.len(),
        text.skip(text.len() - after_last_slash(text).len()) == after_last_slash(text),
        after_last_slash(text).len() < text.len() ==> text[text.len() - after_last_slash(text).len() - 1] == '/',
    decreases text.len(),
{
    if text.len() == 0 || text.last() == '/' {
        assert(text.skip(text.len() as int) =~= Seq::<char>::empty());
    } else {
        let rest = text.drop_last();
        segments_have_no_slash(rest);
        let part = after_last_slash(rest);
        let whole = after_last_slash(text);
        if whole.contains('/') {
            let i = choose|i: int| 0 <= i < whole.len() && whole[i] == '/';
            assert(part[i] == '/');
        }
        assert(text.skip(text.len() - whole.len()) =~= rest.skip(rest.len() - part.len()).push(text.last()));
    }
}

/// A text starts with another where all characters of that one come first in it.
pub proof fn starts_come_first(text: Seq<char>, start: Seq<char>)
    ensures
        has_start(text, start) <==> exists|rest: Seq<char>| text == #[trigger] (start + rest),
{
    if has_start(text, start) {
        let rest = text.skip(start.len() as int);
        assert(text =~= start + rest) by {
            assert forall|i: int| 0 <= i < start.len() implies text[i] == start[i] by {
                assert(text.take(start.len() as int)[i] == start[i]);
            }
        }
    }
    if exists|rest: Seq<char>| text == #[trigger] (start + rest) {
        let rest = choose|rest: Seq<char>| text == #[trigger] (start + rest);
        assert(text.take(start.len() as int) =~= start);
    }
}

} // verus!
