//! Stable sorting of lists by an order on their models.
use crate::text;
use vstd::prelude::*;
use vstd::utf8::*;

verus! {

/// A model value with a strict order in which lists of it are sorted.
pub trait Ranked: Sized {
    /// `self` is to stand before `other`.
    spec fn precedes(self, other: Self) -> bool;

    proof fn precedes_asymmetric(a: Self, b: Self)
        requires
            a.precedes(b),
        ensures
            !b.precedes(a),
    ;

    /// What does not precede is a transitive relation.
    proof fn follows_transitive(a: Self, b: Self, c: Self)
        requires
            !b.precedes(a),
            !c.precedes(b),
        ensures
            !c.precedes(a),
    ;
}

/// A value whose model is ranked.
pub trait Sortable: View + Sized where <Self as View>::V: Ranked {
    fn is_before(&self, other: &Self) -> (r: bool)
        ensures
            r == self@.precedes(other@),
    ;
}

/// The models of a list.
pub open spec fn views<T: View>(list: Seq<T>) -> Seq<T::V> {
    list.map_values(|item: T| item@)
}

/// `item` put into a sorted list, behind everything that it does not precede.
pub open spec fn inserted<V: Ranked>(list: Seq<V>, item: V) -> Seq<V>
    decreases list.len(),
{
    if list.len() == 0 {
        seq![item]
    } else if item.precedes(list.last()) {
        inserted(list.drop_last(), item).push(list.last())
    } else {
        list.push(item)
    }
}

/// The list in order, equals in the order they had.
pub open spec fn stable_sort<V: Ranked>(list: Seq<V>) -> Seq<V>
    decreases list.len(),
{
    if list.len() == 0 {
        list
    } else {
        inserted(stable_sort(list.drop_last()), list.last())
    }
}

/// No item stands before one that it should follow.
pub open spec fn in_order<V: Ranked>(list: Seq<V>) -> bool {
    forall|i: int, j: int| 0 <= i < j < list.len() ==> !(#[trigger] list[j]).precedes(#[trigger] list[i])
}

proof fn lemma_inserted<V: Ranked>(list: Seq<V>, item: V)
    requires
        in_order(list),
    ensures
        in_order(inserted(list, item)),
        inserted(list, item).to_multiset() =~= list.to_multiset().insert(item),
        inserted(list, item).len() == list.len() + 1,
    decreases list.len(),
{
    broadcast use vstd::seq_lib::group_to_multiset_ensures;
    if list.len() == 0 {
        assert(inserted(list, item) =~= list.push(item));
    } else if item.precedes(list.last()) {
        let shorter = list.drop_last();
        let last = list.last();
        lemma_inserted(shorter, item);
        assert(list =~= shorter.push(last));
        let result = inserted(shorter, item).push(last);
        assert forall|i: int, j: int| 0 <= i < j < result.len() implies !(#[trigger] result[j]).precedes(
            #[trigger] result[i],
        ) by {
            if j == result.len() - 1 {
                let x = inserted(shorter, item)[i];
                assert(inserted(shorter, item).to_multiset().count(x) > 0);
                assert(shorter.to_multiset().insert(item).count(x) > 0);
                if x == item {
                    V::precedes_asymmetric(item, last);
                } else {
                    assert(shorter.to_multiset().count(x) > 0);
                    assert(shorter.contains(x));
                    let k = choose|k: int| 0 <= k < shorter.len() && shorter[k] == x;
                    assert(!list[list.len() - 1].precedes(list[k]));
                }
            }
        }
    } else {
        let result = list.push(item);
        assert forall|i: int, j: int| 0 <= i < j < result.len() implies !(#[trigger] result[j]).precedes(
            #[trigger] result[i],
        ) by {
            if j == result.len() - 1 {
                if i < list.len() - 1 {
                    V::follows_transitive(list[i], list.last(), item);
                }
            }
        }
    }
}

/// A sorted list is in order and holds the same items as before, each as often.
pub proof fn lemma_stable_sort<V: Ranked>(list: Seq<V>)
    ensures
        in_order(stable_sort(list)),
        stable_sort(list).to_multiset() =~= list.to_multiset(),
        stable_sort(list).len() == list.len(),
    decreases list.len(),
{
    broadcast use vstd::seq_lib::group_to_multiset_ensures;

    if list.len() > 0 {
        lemma_stable_sort(list.drop_last());
        lemma_inserted(stable_sort(list.drop_last()), list.last());
        assert(list =~= list.drop_last().push(list.last()));
    }
}

/// A list that is in order stays as it is.
pub proof fn lemma_sort_keeps_order<V: Ranked>(list: Seq<V>)
    requires
        in_order(list),
    ensures
        stable_sort(list) == list,
    decreases list.len(),
{
    if list.len() > 0 {
        let shorter = list.drop_last();
        lemma_sort_keeps_order(shorter);
        if shorter.len() > 0 {
            assert(!list[list.len() - 1].precedes(list[list.len() - 2]));
        }
        assert(inserted(shorter, list.last()) =~= list);
    }
}

/// What holds of every item of a list holds of every item of the sorted list.
pub proof fn lemma_sort_members<V: Ranked>(list: Seq<V>, x: V)
    ensures
        stable_sort(list).contains(x) == list.contains(x),
{
    broadcast use vstd::seq_lib::group_to_multiset_ensures;

    lemma_stable_sort(list);
    assert(stable_sort(list).to_multiset().count(x) == list.to_multiset().count(x));
}

proof fn lemma_inserted_at<V: Ranked>(list: Seq<V>, item: V, k: int)
    requires
        0 <= k <= list.len(),
        forall|j: int| k <= j < list.len() ==> item.precedes(#[trigger] list[j]),
        k > 0 ==> !item.precedes(list[k - 1]),
    ensures
        inserted(list, item) == list.insert(k, item),
    decreases list.len(),
{
    if list.len() == 0 {
        assert(inserted(list, item) =~= list.insert(k, item));
    } else if k == list.len() {
        assert(inserted(list, item) =~= list.insert(k, item));
    } else {
        assert(item.precedes(list[list.len() - 1]));
        lemma_inserted_at(list.drop_last(), item, k);
        assert(inserted(list, item) =~= list.insert(k, item));
    }
}

/// Sorts a list; equals keep their order.
pub fn sort_list<T: Sortable>(items: Vec<T>) -> (sorted: Vec<T>) where <T as View>::V: Ranked
    ensures
        views(sorted@) == stable_sort(views(items@)),
{
    let ghost all = items@;
    let mut rest: Vec<T> = items;
    let mut reversed: Vec<T> = Vec::new();
    while rest.len() > 0
        invariant
            rest@ + reversed@.reverse() == all,
        decreases rest@.len(),
    {
        let ghost before = rest@ + reversed@.reverse();
        if let Some(item) = rest.pop() {
            reversed.push(item);
        }
        assert(rest@ + reversed@.reverse() =~= before);
    }
    let mut sorted: Vec<T> = Vec::new();
    assert(reversed@.reverse() =~= all);
    assert(views(all.take(0)) =~= Seq::<T::V>::empty());
    assert(views(sorted@) =~= stable_sort(views(all.take(0))));
    let ghost mut done: int = 0;
    while reversed.len() > 0
        invariant
            0 <= done <= all.len(),
            reversed@.reverse() == all.skip(done),
            views(sorted@) == stable_sort(views(all.take(done))),
            reversed@.len() == all.len() - done,
        decreases reversed@.len(),
    {
        let ghost held = reversed@;
        if let Some(item) = reversed.pop() {
            proof {
                assert(item == held.reverse()[0]);
                assert(item == all[done]);
                assert(reversed@.reverse() =~= held.reverse().skip(1));
                assert(all.skip(done).skip(1) =~= all.skip(done + 1));
            }
            let ghost before = sorted@;
            let mut k: usize = sorted.len();
            while k > 0 && item.is_before(&sorted[k - 1])
                invariant
                    k <= sorted@.len(),
                    forall|j: int| k <= j < sorted@.len() ==> item@.precedes((#[trigger] views(sorted@)[j])),
                decreases k,
            {
                k -= 1;
                assert(views(sorted@)[k as int] == sorted@[k as int]@);
            }
            sorted.insert(k, item);
            proof {
                if k > 0 {
                    assert(views(before)[k - 1] == before[k - 1]@);
                }
                lemma_inserted_at(views(before), item@, k as int);
                assert(views(sorted@) =~= views(before).insert(k as int, item@));
                let next = views(all.take(done + 1));
                assert(next.drop_last() =~= views(all.take(done)));
                assert(next.last() == item@);
                done = done + 1;
            }
        }
    }
    assert(all.take(done) =~= all);
    sorted
}

/// Order by a first text and, where those are equal, by a second.
pub open spec fn pair_before(a1: Seq<char>, a2: Seq<char>, b1: Seq<char>, b2: Seq<char>) -> bool {
    text::text_before(a1, b1) || (a1 == b1 && text::text_before(a2, b2))
}

pub proof fn lemma_text_before_asymmetric(a: Seq<char>, b: Seq<char>)
    requires
        text::text_before(a, b),
    ensures
        !text::text_before(b, a),
        a != b,
{
    text::lemma_bytes_before_irreflexive(encode_utf8(a));
    if text::text_before(b, a) {
        text::lemma_bytes_before_transitive(encode_utf8(a), encode_utf8(b), encode_utf8(a));
    }
}

/// Of two different texts one precedes the other.
pub proof fn lemma_text_before_total(a: Seq<char>, b: Seq<char>)
    ensures
        a == b || text::text_before(a, b) || text::text_before(b, a),
{
    text::lemma_bytes_before_total(encode_utf8(a), encode_utf8(b));
    if encode_utf8(a) == encode_utf8(b) {
        text::lemma_encoding_injective(a, b);
    }
}

pub proof fn lemma_text_before_transitive(a: Seq<char>, b: Seq<char>, c: Seq<char>)
    requires
        text::text_before(a, b),
        text::text_before(b, c),
    ensures
        text::text_before(a, c),
{
    text::lemma_bytes_before_transitive(encode_utf8(a), encode_utf8(b), encode_utf8(c));
}

pub proof fn lemma_text_follows_transitive(a: Seq<char>, b: Seq<char>, c: Seq<char>)
    requires
        !text::text_before(b, a),
        !text::text_before(c, b),
    ensures
        !text::text_before(c, a),
        a == c ==> b == a,
{
    lemma_text_before_total(a, b);
    lemma_text_before_total(b, c);
    if text::text_before(a, b) && text::text_before(b, c) {
        lemma_text_before_transitive(a, b, c);
    }
    if text::text_before(c, a) {
        lemma_text_before_asymmetric(c, a);
    }
    if text::text_before(a, b) && a == c {
        lemma_text_before_asymmetric(a, b);
    }
}

pub proof fn lemma_pair_before_asymmetric(
    a1: Seq<char>,
    a2: Seq<char>,
    b1: Seq<char>,
    b2: Seq<char>,
)
    requires
        pair_before(a1, a2, b1, b2),
    ensures
        !pair_before(b1, b2, a1, a2),
{
    if text::text_before(a1, b1) {
        lemma_text_before_asymmetric(a1, b1);
    } else {
        text::lemma_bytes_before_irreflexive(encode_utf8(a1));
        lemma_text_before_asymmetric(a2, b2);
    }
}

pub proof fn lemma_pair_follows_transitive(
    a1: Seq<char>,
    a2: Seq<char>,
    b1: Seq<char>,
    b2: Seq<char>,
    c1: Seq<char>,
    c2: Seq<char>,
)
    requires
        !pair_before(b1, b2, a1, a2),
        !pair_before(c1, c2, b1, b2),
    ensures
        !pair_before(c1, c2, a1, a2),
{
    lemma_text_follows_transitive(a1, b1, c1);
    if a1 == c1 {
        lemma_text_follows_transitive(a2, b2, c2);
    }
}

/// Compares two pairs of texts.
pub fn pair_precedes(a1: &str, a2: &str, b1: &str, b2: &str) -> (r: bool)
    ensures
        r == pair_before(a1@, a2@, b1@, b2@),
{
    text::text_precedes(a1, b1) || (text::same_text(a1, b1) && text::text_precedes(a2, b2))
}

} // verus!
