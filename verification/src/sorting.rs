//! Stable sorting.
use vstd::prelude::*;

verus! {

/// The views of a list of values.
pub open spec fn views<T: View>(list: Seq<T>) -> Seq<T::V> {
    list.map_values(|item: T| item@)
}

/// A list in order with one more item, placed behind the items it does not
/// precede.
pub open spec fn inserted<A>(list: Seq<A>, item: A, before: spec_fn(A, A) -> bool) -> Seq<A>
    decreases list.len(),
{
    if list.len() == 0 || !before(item, list.last()) {
        list.push(item)
    } else {
        inserted(list.drop_last(), item, before).push(list.last())
    }
}

/// The list in order; items of which neither precedes the other keep their
/// order.
pub open spec fn sorted_by<A>(list: Seq<A>, before: spec_fn(A, A) -> bool) -> Seq<A>
    decreases list.len(),
{
    if list.len() == 0 {
        list
    } else {
        inserted(sorted_by(list.drop_last(), before), list.last(), before)
    }
}

/// A value that may have to stand before another.
pub trait Ranked: Sized {
    spec fn precedes(&self, other: &Self) -> bool;

    fn is_before(&self, other: &Self) -> (r: bool)
        ensures
            r == self.precedes(other),
    ;
}

pub open spec fn precedence<T: Ranked>() -> spec_fn(T, T) -> bool {
    |a: T, b: T| a.precedes(&b)
}

proof fn lemma_inserted_at<A>(list: Seq<A>, item: A, before: spec_fn(A, A) -> bool, at: int)
    requires
        0 <= at <= list.len(),
        forall|i: int| at <= i < list.len() ==> before(item, #[trigger] list[i]),
        at > 0 ==> !before(item, list[at - 1]),
    ensures
        inserted(list, item, before) == list.insert(at, item),
    decreases list.len(),
{
    if at == list.len() {
        assert(list.insert(at, item) == list.push(item));
    } else {
        let head = list.drop_last();
        assert(before(item, list[list.len() - 1]));
        assert forall|i: int| at <= i < head.len() implies before(item, #[trigger] head[i]) by {
            assert(head[i] == list[i]);
        }
        lemma_inserted_at(head, item, before, at);
        assert(head.insert(at, item).push(list.last()) == list.insert(at, item));
    }
}

/// Sorts a list; equal items keep their order.
pub fn sort<T: Ranked>(list: Vec<T>) -> (r: Vec<T>)
    ensures
        r@ == sorted_by(list@, precedence::<T>()),
{
    let ghost all = list@;
    let mut rest = list;
    let mut out: Vec<T> = Vec::new();
    let ghost mut taken: int = 0;
    assert(all.skip(0) == all);
    assert(all.take(0) == Seq::<T>::empty());
    while rest.len() > 0
        invariant
            0 <= taken <= all.len(),
            rest@ == all.skip(taken),
            out@ == sorted_by(all.take(taken), precedence::<T>()),
        decreases rest@.len(),
    {
        let item = rest.remove(0);
        let mut at: usize = out.len();
        while at > 0 && item.is_before(&out[at - 1])
            invariant
                at <= out@.len(),
                forall|i: int| at <= i < out@.len() ==> item.precedes(#[trigger] &out@[i]),
            decreases at,
        {
            at -= 1;
        }
        proof {
            assert forall|i: int| at <= i < out@.len() implies precedence::<T>()(
                item,
                #[trigger] out@[i],
            ) by {
                assert(item.precedes(&out@[i]));
            }
            lemma_inserted_at(out@, item, precedence::<T>(), at as int);
            assert(all.take(taken + 1).drop_last() == all.take(taken));
            assert(all.take(taken + 1).last() == item);
            assert(all.skip(taken).remove(0) == all.skip(taken + 1));
            taken = taken + 1;
        }
        out.insert(at, item);
    }
    assert(all.take(taken) == all);
    out
}

/// Sorting the views is the same as taking the views of the sorted list.
pub proof fn lemma_sorted_views<T: View>(
    list: Seq<T>,
    before: spec_fn(T, T) -> bool,
    view_before: spec_fn(T::V, T::V) -> bool,
)
    requires
        forall|a: T, b: T| #[trigger] before(a, b) == view_before(a@, b@),
    ensures
        views(sorted_by(list, before)) == sorted_by(views(list), view_before),
    decreases list.len(),
{
    if list.len() > 0 {
        lemma_sorted_views(list.drop_last(), before, view_before);
        assert(views(list).drop_last() == views(list.drop_last()));
        lemma_inserted_views(
            sorted_by(list.drop_last(), before),
            list.last(),
            before,
            view_before,
        );
    } else {
        assert(views(list) == sorted_by(views(list), view_before));
    }
}

proof fn lemma_inserted_views<T: View>(
    list: Seq<T>,
    item: T,
    before: spec_fn(T, T) -> bool,
    view_before: spec_fn(T::V, T::V) -> bool,
)
    requires
        forall|a: T, b: T| #[trigger] before(a, b) == view_before(a@, b@),
    ensures
        views(inserted(list, item, before)) == inserted(views(list), item@, view_before),
    decreases list.len(),
{
    if list.len() == 0 || !before(item, list.last()) {
        assert(list.len() > 0 ==> views(list).last() == list.last()@);
        assert(views(list.push(item)) == views(list).push(item@));
    } else {
        lemma_inserted_views(list.drop_last(), item, before, view_before);
        assert(views(list).drop_last() == views(list.drop_last()));
        assert(views(list).last() == list.last()@);
        let inner = inserted(list.drop_last(), item, before);
        assert(views(inner.push(list.last())) == views(inner).push(list.last()@));
    }
}

/// Sorting keeps the items: nothing is lost, added or doubled.
pub proof fn sorting_keeps_items<A>(list: Seq<A>, before: spec_fn(A, A) -> bool)
    ensures
        sorted_by(list, before).to_multiset() == list.to_multiset(),
        sorted_by(list, before).len() == list.len(),
    decreases list.len(),
{
    broadcast use vstd::seq_lib::group_to_multiset_ensures;

    if list.len() > 0 {
        sorting_keeps_items(list.drop_last(), before);
        lemma_inserted_items(sorted_by(list.drop_last(), before), list.last(), before);
        assert(list.drop_last().push(list.last()) == list);
    }
}

proof fn lemma_inserted_items<A>(list: Seq<A>, item: A, before: spec_fn(A, A) -> bool)
    ensures
        inserted(list, item, before).to_multiset() == list.to_multiset().insert(item),
        inserted(list, item, before).len() == list.len() + 1,
    decreases list.len(),
{
    broadcast use vstd::seq_lib::group_to_multiset_ensures;

    if list.len() > 0 && before(item, list.last()) {
        lemma_inserted_items(list.drop_last(), item, before);
        assert(list.drop_last().push(list.last()) == list);
        assert(list.to_multiset().insert(item) =~= list.drop_last().to_multiset().insert(
            item,
        ).insert(list.last()));
    }
}

/// Lists with the same items: what stands in one stands in the other.
pub proof fn lemma_same_members<A>(a: Seq<A>, b: Seq<A>, k: int)
    requires
        a.to_multiset() == b.to_multiset(),
        0 <= k < a.len(),
    ensures
        exists|j: int| 0 <= j < b.len() && b[j] == a[k],
{
    a.to_multiset_ensures();
    b.to_multiset_ensures();
    assert(a.contains(a[k]));
    assert(b.to_multiset().count(a[k]) > 0);
    assert(b.contains(a[k]));
}

/// A strict order in which being incomparable is no obstacle to sorting.
pub open spec fn orders<A>(before: spec_fn(A, A) -> bool) -> bool {
    &&& forall|a: A, b: A| #[trigger] before(a, b) ==> !before(b, a)
    &&& forall|a: A, b: A, c: A|
        (#[trigger] before(a, b)) && !(#[trigger] before(c, b)) ==> before(a, c)
}

pub open spec fn ranked<A>(list: Seq<A>, before: spec_fn(A, A) -> bool) -> bool {
    forall|i: int, j: int|
        0 <= i < j < list.len() ==> !before(#[trigger] list[j], #[trigger] list[i])
}

/// In a sorted list no item precedes one that stands before it.
pub proof fn sorting_ranks<A>(list: Seq<A>, before: spec_fn(A, A) -> bool)
    requires
        orders(before),
    ensures
        ranked(sorted_by(list, before), before),
    decreases list.len(),
{
    if list.len() > 0 {
        sorting_ranks(list.drop_last(), before);
        lemma_inserted_ranks(sorted_by(list.drop_last(), before), list.last(), before);
    }
}

proof fn lemma_inserted_members<A>(
    list: Seq<A>,
    item: A,
    before: spec_fn(A, A) -> bool,
    i: int,
)
    requires
        0 <= i < inserted(list, item, before).len(),
    ensures
        inserted(list, item, before)[i] == item || list.contains(inserted(list, item, before)[i]),
    decreases list.len(),
{
    let after = inserted(list, item, before);
    if list.len() == 0 || !before(item, list.last()) {
        if i < list.len() {
            assert(after[i] == list[i]);
        }
    } else {
        let head = list.drop_last();
        let inner = inserted(head, item, before);
        if i < inner.len() {
            assert(after[i] == inner[i]);
            lemma_inserted_members(head, item, before, i);
            if inner[i] != item {
                let k = choose|k: int| 0 <= k < head.len() && head[k] == inner[i];
                assert(list[k] == inner[i]);
            }
        } else {
            assert(after[i] == list[list.len() - 1]);
        }
    }
}

proof fn lemma_inserted_ranks<A>(list: Seq<A>, item: A, before: spec_fn(A, A) -> bool)
    requires
        orders(before),
        ranked(list, before),
    ensures
        ranked(inserted(list, item, before), before),
    decreases list.len(),
{
    let after = inserted(list, item, before);
    if list.len() == 0 || !before(item, list.last()) {
        assert forall|i: int, j: int| 0 <= i < j < after.len() implies !before(
            #[trigger] after[j],
            #[trigger] after[i],
        ) by {
            if j == list.len() && i < list.len() - 1 {
                // The new item precedes no earlier item: else it would precede the last.
                if before(item, list[i]) {
                    assert(!before(list[list.len() - 1], list[i]));
                    assert(before(item, list[list.len() - 1]));
                }
            }
        }
    } else {
        let head = list.drop_last();
        let inner = inserted(head, item, before);
        assert(ranked(head, before)) by {
            assert forall|i: int, j: int| 0 <= i < j < head.len() implies !before(
                #[trigger] head[j],
                #[trigger] head[i],
            ) by {
                assert(head[i] == list[i]);
                assert(head[j] == list[j]);
            }
        }
        lemma_inserted_ranks(head, item, before);
        assert forall|i: int, j: int| 0 <= i < j < after.len() implies !before(
            #[trigger] after[j],
            #[trigger] after[i],
        ) by {
            if j == inner.len() {
                lemma_inserted_members(head, item, before, i);
                assert(after[i] == inner[i]);
                if inner[i] == item {
                    assert(before(item, list.last()));
                } else {
                    let k = choose|k: int| 0 <= k < head.len() && head[k] == inner[i];
                    assert(head[k] == list[k]);
                    assert(!before(list[list.len() - 1], list[k]));
                }
            } else {
                assert(after[i] == inner[i]);
                assert(after[j] == inner[j]);
            }
        }
    }
}

/// Lists with the same items, in which none precedes one that stands before it,
/// are the same where any two items can be told apart by the order.
proof fn lemma_ranked_alike<A>(a: Seq<A>, b: Seq<A>, before: spec_fn(A, A) -> bool)
    requires
        forall|x: A, y: A| #![trigger before(x, y)] !before(x, y) && !before(y, x) ==> x == y,
        ranked(a, before),
        ranked(b, before),
        a.to_multiset() == b.to_multiset(),
    ensures
        a == b,
    decreases a.len(),
{
    broadcast use vstd::seq_lib::group_to_multiset_ensures;

    a.to_multiset_ensures();
    b.to_multiset_ensures();
    if a.len() > 0 {
        let n = a.len() - 1;
        lemma_same_members(a, b, n);
        lemma_same_members(b, a, n);
        let j = choose|j: int| 0 <= j < b.len() && b[j] == a[n];
        let k = choose|k: int| 0 <= k < a.len() && a[k] == b[n];
        if a[n] != b[n] {
            assert(!before(b[n], b[j]));
            assert(!before(a[n], a[k]));
        }
        assert(a.drop_last().push(a.last()) == a);
        assert(b.drop_last().push(b.last()) == b);
        assert(a.drop_last().to_multiset() =~= a.to_multiset().remove(a.last()));
        assert(b.drop_last().to_multiset() =~= b.to_multiset().remove(b.last()));
        assert forall|i: int, m: int| 0 <= i < m < n implies !before(
            #[trigger] a.drop_last()[m],
            #[trigger] a.drop_last()[i],
        ) by {
            assert(!before(a[m], a[i]));
        }
        assert forall|i: int, m: int| 0 <= i < m < n implies !before(
            #[trigger] b.drop_last()[m],
            #[trigger] b.drop_last()[i],
        ) by {
            assert(!before(b[m], b[i]));
        }
        lemma_ranked_alike(a.drop_last(), b.drop_last(), before);
    } else {
        assert(a =~= b);
    }
}

/// The order in which the items came does not matter, where any two can be told
/// apart by the order.
pub proof fn sorting_forgets_the_order<A>(a: Seq<A>, b: Seq<A>, before: spec_fn(A, A) -> bool)
    requires
        orders(before),
        forall|x: A, y: A| #![trigger before(x, y)] !before(x, y) && !before(y, x) ==> x == y,
        a.to_multiset() == b.to_multiset(),
    ensures
        sorted_by(a, before) == sorted_by(b, before),
{
    sorting_keeps_items(a, before);
    sorting_keeps_items(b, before);
    sorting_ranks(a, before);
    sorting_ranks(b, before);
    lemma_ranked_alike(sorted_by(a, before), sorted_by(b, before), before);
}

} // verus!
