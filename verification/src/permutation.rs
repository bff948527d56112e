//! Properties of a sequence that survive a reordering of its items.
use vstd::prelude::*;

verus! {

/// No two items of `items` at different places have the same key; items
/// without a key do not count.
pub open spec fn keyed_distinct<A, K>(items: Seq<A>, key: spec_fn(A) -> Option<K>) -> bool {
    forall|i: int, j: int|
        0 <= i < items.len() && 0 <= j < items.len() && i != j && key(items[i]) is Some ==> key(
            items[i],
        ) != key(items[j])
}

/// An item that stands at two places occurs at least twice.
pub proof fn lemma_two_places_count<A>(items: Seq<A>, i: int, j: int)
    requires
        0 <= i < j < items.len(),
        items[i] == items[j],
    ensures
        items.to_multiset().count(items[i]) >= 2,
{
    broadcast use vstd::seq_lib::group_to_multiset_ensures;

    let front = items.subrange(0, j);
    let back = items.subrange(j, items.len() as int);
    assert(items =~= front + back);
    vstd::seq_lib::lemma_multiset_commutative(front, back);
    assert(front[i] == items[i]);
    assert(front.contains(items[i]));
    assert(back[0] == items[i]);
    assert(back.contains(items[i]));
}

/// An item that occurs at least twice stands at two places.
pub proof fn lemma_count_two_places<A>(items: Seq<A>, item: A) -> (places: (int, int))
    requires
        items.to_multiset().count(item) >= 2,
    ensures
        0 <= places.0 < places.1 < items.len(),
        items[places.0] == item,
        items[places.1] == item,
    decreases items.len(),
{
    broadcast use vstd::seq_lib::group_to_multiset_ensures;

    if items.len() == 0 {
        assert(items.to_multiset().len() == 0);
        (0, 0)
    } else {
        let rest = items.drop_last();
        assert(items =~= rest.push(items.last()));
        assert(items.to_multiset() =~= rest.to_multiset().insert(items.last()));
        if items.last() == item {
            assert(rest.to_multiset().count(item) >= 1);
            assert(rest.contains(item));
            let at = choose|at: int| 0 <= at < rest.len() && rest[at] == item;
            (at, items.len() - 1)
        } else {
            assert(rest.to_multiset().count(item) >= 2);
            lemma_count_two_places(rest, item)
        }
    }
}

/// Reordering the items keeps their keys distinct.
pub proof fn lemma_keyed_distinct_reordered<A, K>(
    before: Seq<A>,
    after: Seq<A>,
    key: spec_fn(A) -> Option<K>,
)
    requires
        before.to_multiset() == after.to_multiset(),
        keyed_distinct(before, key),
    ensures
        keyed_distinct(after, key),
{
    broadcast use vstd::seq_lib::group_to_multiset_ensures;

    assert forall|i: int, j: int|
        0 <= i < after.len() && 0 <= j < after.len() && i != j && key(after[i]) is Some implies key(
        after[i],
    ) != key(after[j]) by {
        if key(after[i]) == key(after[j]) {
            let x = after[i];
            let y = after[j];
            assert(after.contains(x));
            assert(after.contains(y));
            if x == y {
                if i < j {
                    lemma_two_places_count(after, i, j);
                } else {
                    lemma_two_places_count(after, j, i);
                }
                let places = lemma_count_two_places(before, x);
                assert(key(before[places.0]) == key(before[places.1]));
            } else {
                assert(before.to_multiset().count(x) > 0);
                assert(before.to_multiset().count(y) > 0);
                assert(before.contains(x));
                assert(before.contains(y));
                let a = choose|a: int| 0 <= a < before.len() && before[a] == x;
                let b = choose|b: int| 0 <= b < before.len() && before[b] == y;
                assert(key(before[a]) == key(before[b]));
            }
        }
    }
}

/// Every item of a sequence is an item of each of its reorderings.
pub proof fn lemma_reordered_contains<A>(before: Seq<A>, after: Seq<A>, item: A)
    requires
        before.to_multiset() == after.to_multiset(),
    ensures
        before.contains(item) == after.contains(item),
        before.len() == after.len(),
{
    before.to_multiset_ensures();
    after.to_multiset_ensures();
    assert(before.contains(item) <==> before.to_multiset().count(item) > 0);
    assert(after.contains(item) <==> after.to_multiset().count(item) > 0);
    assert(before.len() == before.to_multiset().len());
    assert(after.len() == after.to_multiset().len());
}

} // verus!
