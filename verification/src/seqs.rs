//! Facts about sequences and sets.
use vstd::prelude::*;

verus! {

/// Filtering one more item keeps it exactly where it meets the predicate.
pub proof fn lemma_filter_take<A>(items: Seq<A>, pred: spec_fn(A) -> bool, i: int)
    requires
        0 <= i < items.len(),
    ensures
        items.take(i + 1).filter(pred) == if pred(items[i]) {
            items.take(i).filter(pred).push(items[i])
        } else {
            items.take(i).filter(pred)
        },
{
    reveal(Seq::filter);
    assert(items.take(i + 1).drop_last() =~= items.take(i));
}

/// Filtering a sequence without duplicates leaves it so.
pub proof fn lemma_filter_no_duplicates<A>(items: Seq<A>, pred: spec_fn(A) -> bool)
    requires
        items.no_duplicates(),
    ensures
        items.filter(pred).no_duplicates(),
        forall|item: A| #[trigger]
            items.filter(pred).contains(item) <==> items.contains(item) && pred(item),
    decreases items.len(),
{
    reveal(Seq::filter);
    if items.len() > 0 {
        let rest = items.drop_last();
        let last = items.last();
        lemma_filter_no_duplicates(rest, pred);
        assert(items =~= rest.push(last));
        let kept = rest.filter(pred);
        assert forall|item: A| #[trigger]
            items.filter(pred).contains(item) <==> items.contains(item) && pred(item) by {
            if items.contains(item) {
                let i = choose|i: int| 0 <= i < items.len() && items[i] == item;
                if i < rest.len() {
                    assert(rest[i] == item);
                    assert(rest.contains(item));
                }
            }
            if rest.contains(item) {
                let i = choose|i: int| 0 <= i < rest.len() && rest[i] == item;
                assert(items[i] == item);
            }
            assert(items[items.len() - 1] == last);
            if pred(last) {
                assert(items.filter(pred) == kept.push(last));
                if kept.contains(item) {
                    let i = choose|i: int| 0 <= i < kept.len() && kept[i] == item;
                    assert(kept.push(last)[i] == item);
                }
                assert(kept.push(last)[kept.len() as int] == last);
                if kept.push(last).contains(item) && item != last {
                    let i = choose|i: int| 0 <= i < kept.len() + 1 && kept.push(last)[i] == item;
                    assert(kept[i] == item);
                }
            }
        }
        if pred(last) {
            assert(!kept.contains(last)) by {
                if kept.contains(last) {
                    assert(rest.contains(last));
                    let i = choose|i: int| 0 <= i < rest.len() && rest[i] == last;
                    assert(items[i] == items[items.len() - 1]);
                }
            }
            assert forall|i: int, j: int|
                0 <= i < j < kept.push(last).len() implies kept.push(last)[i] != kept.push(last)[j] by {
                assert(kept.contains(kept[i]));
            }
        }
    }
}

/// Counting the keys that meet a predicate counts the items of the set that do.
pub proof fn lemma_count_keys<A>(keys: Seq<A>, items: Set<A>, pred: spec_fn(A) -> bool)
    requires
        keys.no_duplicates(),
        keys.to_set() == items,
    ensures
        items.finite(),
        items.filter(pred).len() == keys.filter(pred).len(),
        keys.len() == items.len(),
        items.filter(pred).len() <= items.len(),
{
    vstd::seq_lib::seq_to_set_is_finite(keys);
    lemma_filter_no_duplicates(keys, pred);
    keys.unique_seq_to_set();
    keys.filter(pred).unique_seq_to_set();
    assert forall|item: A| keys.filter(pred).to_set().contains(item) <==> items.filter(pred).contains(item) by {
        assert(keys.to_set().contains(item) <==> items.contains(item));
    }
    assert(keys.filter(pred).to_set() =~= items.filter(pred));
    vstd::set_lib::lemma_len_subset(items.filter(pred), items);
}

/// What is left of a list keeps its order.
pub proof fn lemma_filter_keeps_order<A>(items: Seq<A>, pred: spec_fn(A) -> bool, i: int, j: int) -> (places: (int, int))
    requires
        0 <= i < j < items.filter(pred).len(),
    ensures
        0 <= places.0 < places.1 < items.len(),
        items[places.0] == items.filter(pred)[i],
        items[places.1] == items.filter(pred)[j],
    decreases items.len(),
{
    reveal(Seq::filter);
    let rest = items.drop_last();
    if pred(items.last()) && j == items.filter(pred).len() - 1 {
        let kept = rest.filter(pred);
        assert(items.filter(pred) == kept.push(items.last()));
        assert(kept[i] == items.filter(pred)[i]);
        assert(kept.contains(kept[i]));
        rest.lemma_filter_contains_rev(pred, kept[i]);
        let p = choose|p: int| 0 <= p < rest.len() && rest[p] == kept[i];
        assert(rest[p] == items[p]);
        (p, items.len() - 1)
    } else {
        let places = lemma_filter_keeps_order(rest, pred, i, j);
        assert(rest[places.0] == items[places.0] && rest[places.1] == items[places.1]);
        places
    }
}

} // verus!
