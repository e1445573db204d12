//! Sums over lists.
use crate::order;
use vstd::prelude::*;

verus! {

/// The sum of a measure over a list.
pub open spec fn sum_of<V>(list: Seq<V>, measure: spec_fn(V) -> nat) -> nat
    decreases list.len(),
{
    if list.len() == 0 {
        0
    } else {
        sum_of(list.drop_last(), measure) + measure(list.last())
    }
}

pub proof fn lemma_sum_push<V>(list: Seq<V>, item: V, measure: spec_fn(V) -> nat)
    ensures
        sum_of(list.push(item), measure) == sum_of(list, measure) + measure(item),
{
    assert(list.push(item).drop_last() =~= list);
}

/// The sum over the first items grows by the measure of the next.
pub proof fn lemma_sum_next<V>(list: Seq<V>, i: int, measure: spec_fn(V) -> nat)
    requires
        0 <= i < list.len(),
    ensures
        sum_of(list.take(i + 1), measure) == sum_of(list.take(i), measure) + measure(list[i]),
{
    assert(list.take(i + 1) =~= list.take(i).push(list[i]));
    lemma_sum_push(list.take(i), list[i], measure);
}

/// No part sums to more than the whole.
pub proof fn lemma_sum_of_part<V>(list: Seq<V>, i: int, measure: spec_fn(V) -> nat)
    requires
        0 <= i <= list.len(),
    ensures
        sum_of(list.take(i), measure) <= sum_of(list, measure),
    decreases list.len() - i,
{
    if i == list.len() {
        assert(list.take(i) =~= list);
    } else {
        lemma_sum_next(list, i, measure);
        lemma_sum_of_part(list, i + 1, measure);
    }
}

/// Lists that agree in measure item by item sum to the same.
pub proof fn lemma_sums_agree<V, W>(
    list: Seq<V>,
    measure: spec_fn(V) -> nat,
    other: Seq<W>,
    other_measure: spec_fn(W) -> nat,
)
    requires
        list.len() == other.len(),
        forall|i: int|
            #![trigger list[i]]
            #![trigger other[i]]
            0 <= i < list.len() ==> measure(list[i]) == other_measure(other[i]),
    ensures
        sum_of(list, measure) == sum_of(other, other_measure),
    decreases list.len(),
{
    if list.len() > 0 {
        assert(measure(list[list.len() - 1]) == other_measure(other[list.len() - 1]));
        assert forall|i: int| 0 <= i < list.len() - 1 implies measure(
            #[trigger] list.drop_last()[i],
        ) == other_measure(other.drop_last()[i]) by {
            assert(measure(list[i]) == other_measure(other[i]));
        }
        lemma_sums_agree(list.drop_last(), measure, other.drop_last(), other_measure);
    }
}

/// A list that measures no more than another item by item sums to no more.
pub proof fn lemma_sums_bounded<V, W>(
    list: Seq<V>,
    measure: spec_fn(V) -> nat,
    other: Seq<W>,
    other_measure: spec_fn(W) -> nat,
)
    requires
        list.len() == other.len(),
        forall|i: int|
            #![trigger list[i]]
            #![trigger other[i]]
            0 <= i < list.len() ==> measure(list[i]) <= other_measure(other[i]),
    ensures
        sum_of(list, measure) <= sum_of(other, other_measure),
    decreases list.len(),
{
    if list.len() > 0 {
        assert(measure(list[list.len() - 1]) <= other_measure(other[list.len() - 1]));
        assert forall|i: int| 0 <= i < list.len() - 1 implies measure(
            #[trigger] list.drop_last()[i],
        ) <= other_measure(other.drop_last()[i]) by {
            assert(measure(list[i]) <= other_measure(other[i]));
        }
        lemma_sums_bounded(list.drop_last(), measure, other.drop_last(), other_measure);
    }
}

proof fn lemma_sum_inserted<V: order::Ranked>(list: Seq<V>, item: V, measure: spec_fn(V) -> nat)
    ensures
        sum_of(order::inserted(list, item), measure) == sum_of(list, measure) + measure(item),
    decreases list.len(),
{
    if list.len() == 0 {
        assert(order::inserted(list, item) =~= list.push(item));
        lemma_sum_push(list, item, measure);
    } else if item.precedes(list.last()) {
        lemma_sum_inserted(list.drop_last(), item, measure);
        lemma_sum_push(order::inserted(list.drop_last(), item), list.last(), measure);
    } else {
        lemma_sum_push(list, item, measure);
    }
}

/// Sorting a list keeps its sum.
pub proof fn lemma_sum_sorted<V: order::Ranked>(list: Seq<V>, measure: spec_fn(V) -> nat)
    ensures
        sum_of(order::stable_sort(list), measure) == sum_of(list, measure),
    decreases list.len(),
{
    if list.len() > 0 {
        lemma_sum_sorted(list.drop_last(), measure);
        lemma_sum_inserted(order::stable_sort(list.drop_last()), list.last(), measure);
    }
}

proof fn lemma_sum_removed<V>(list: Seq<V>, k: int, measure: spec_fn(V) -> nat)
    requires
        0 <= k < list.len(),
    ensures
        sum_of(list, measure) == sum_of(list.remove(k), measure) + measure(list[k]),
    decreases list.len(),
{
    let rest = list.remove(k);
    if k == list.len() - 1 {
        assert(rest =~= list.drop_last());
    } else {
        lemma_sum_removed(list.drop_last(), k, measure);
        assert(rest.drop_last() =~= list.drop_last().remove(k));
        assert(rest.last() == list.last());
    }
}

/// The order of a list makes no difference to its sum.
pub proof fn lemma_sum_any_order<V>(list: Seq<V>, other: Seq<V>, measure: spec_fn(V) -> nat)
    requires
        list.to_multiset() == other.to_multiset(),
    ensures
        sum_of(list, measure) == sum_of(other, measure),
    decreases list.len(),
{
    broadcast use vstd::seq_lib::group_to_multiset_ensures;

    assert(list.len() == list.to_multiset().len());
    assert(other.len() == other.to_multiset().len());
    if list.len() > 0 {
        let last = list.last();
        assert(list[list.len() - 1] == last);
        assert(list.to_multiset().count(last) > 0);
        assert(other.contains(last));
        let k = choose|k: int| 0 <= k < other.len() && other[k] == last;
        let rest = other.remove(k);
        assert(list =~= list.drop_last().push(last));
        assert(list.drop_last().to_multiset() =~= list.to_multiset().remove(last));
        assert(rest.to_multiset() =~= other.to_multiset().remove(last));
        lemma_sum_any_order(list.drop_last(), rest, measure);
        lemma_sum_removed(other, k, measure);
    }
}

} // verus!
