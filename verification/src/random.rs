//! Chance.
use vstd::prelude::*;

verus! {

/// `fastrand::u128` over the full range: any number may come.
#[verifier::external_body]
pub(crate) fn random_u128() -> (number: u128)
{
    fastrand::u128(..)
}

/// `fastrand::usize` below `limit`: any number below it may come.
#[verifier::external_body]
pub(crate) fn random_below(limit: usize) -> (number: usize)
    requires
        0 < limit,
    ensures
        number < limit,
{
    fastrand::usize(..limit)
}

/// `fastrand::shuffle` puts the items in some order: the same items, as often as before.
#[verifier::external_body]
pub(crate) fn shuffle<T>(items: Vec<T>) -> (shuffled: Vec<T>)
    ensures
        shuffled@.to_multiset() == items@.to_multiset(),
{
    let mut items = items;
    fastrand::shuffle(&mut items);
    items
}

/// Whether shuffling items gave them in this order.
pub closed spec fn was_shuffled<T>(items: Seq<T>, shuffled: Seq<T>) -> bool {
    exists|given: Vec<T>, result: Vec<T>| {
        &&& given@ == items
        &&& result@ == shuffled
        &&& #[trigger] call_ensures(shuffle::<T>, (given,), result)
    }
}

/// Puts items in random order.
pub fn in_random_order<T>(items: Vec<T>) -> (shuffled: Vec<T>)
    ensures
        was_shuffled(items@, shuffled@),
        shuffled@.to_multiset() == items@.to_multiset(),
{
    let ghost given = items;
    let shuffled = shuffle(items);
    assert(call_ensures(shuffle::<T>, (given,), shuffled));
    shuffled
}

/// Shuffling loses nothing and adds nothing.
pub proof fn shuffling_keeps_the_items<T>(items: Seq<T>, shuffled: Seq<T>)
    requires
        was_shuffled(items, shuffled),
    ensures
        shuffled.to_multiset() == items.to_multiset(),
{
}

} // verus!
