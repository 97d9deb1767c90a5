//! Lists without repetition that are kept in a strict order.

use crate::views::views;
use vstd::prelude::*;

verus! {

/// A strict total order.
pub open spec fn strict_order<V>(less: spec_fn(V, V) -> bool) -> bool {
    &&& forall|a: V| !#[trigger] less(a, a)
    &&& forall|a: V, b: V, c: V| #[trigger] less(a, b) && #[trigger] less(b, c) ==> less(a, c)
    &&& forall|a: V, b: V| #[trigger] less(a, b) || less(b, a) || a == b
}

/// Each element comes before all that follow it.
pub open spec fn ascending<V>(list: Seq<V>, less: spec_fn(V, V) -> bool) -> bool {
    forall|i: int, j: int| 0 <= i < j < list.len() ==> less(#[trigger] list[i], #[trigger] list[j])
}

/// The elements of a set, in order.
pub open spec fn lists<V>(list: Seq<V>, set: Set<V>, less: spec_fn(V, V) -> bool) -> bool {
    &&& ascending(list, less)
    &&& forall|v: V| #[trigger] list.contains(v) <==> set.contains(v)
}

/// The elements of a finite set, in order.
pub open spec fn in_order<V>(set: Set<V>, less: spec_fn(V, V) -> bool) -> Seq<V> {
    choose|list: Seq<V>| lists(list, set, less)
}

/// There is only one way to list a set in order.
pub proof fn order_is_unique<V>(a: Seq<V>, b: Seq<V>, set: Set<V>, less: spec_fn(V, V) -> bool)
    requires
        strict_order(less),
        lists(a, set, less),
        lists(b, set, less),
    ensures
        a == b,
    decreases a.len(),
{
    if a.len() == 0 {
        if b.len() > 0 {
            assert(b.contains(b[0]));
            assert(a.contains(b[0]));
        }
        assert(a =~= b);
    } else {
        assert(a.contains(a.last()));
        assert(b.contains(a.last()));
        assert(b.contains(b.last()));
        assert(a.contains(b.last()));
        let i = choose|i: int| 0 <= i < a.len() && a[i] == b.last();
        let j = choose|j: int| 0 <= j < b.len() && b[j] == a.last();
        if a.last() != b.last() {
            assert(less(a[i], a[a.len() - 1]));
            assert(less(b[j], b[b.len() - 1]));
            assert(less(a.last(), a.last()));
        }
        let rest = set.remove(a.last());
        assert forall|v: V| #[trigger] a.drop_last().contains(v) <==> rest.contains(v) by {
            if a.drop_last().contains(v) {
                let k = choose|k: int| 0 <= k < a.drop_last().len() && a.drop_last()[k] == v;
                assert(a[k] == v);
                assert(a.contains(v));
                assert(less(a[k], a[a.len() - 1]));
            }
            if rest.contains(v) {
                assert(a.contains(v));
                let k = choose|k: int| 0 <= k < a.len() && a[k] == v;
                assert(a.drop_last()[k] == v);
            }
        }
        assert forall|v: V| #[trigger] b.drop_last().contains(v) <==> rest.contains(v) by {
            if b.drop_last().contains(v) {
                let k = choose|k: int| 0 <= k < b.drop_last().len() && b.drop_last()[k] == v;
                assert(b[k] == v);
                assert(b.contains(v));
                assert(less(b[k], b[b.len() - 1]));
            }
            if rest.contains(v) {
                assert(b.contains(v));
                let k = choose|k: int| 0 <= k < b.len() && b[k] == v;
                assert(b.drop_last()[k] == v);
            }
        }
        order_is_unique(a.drop_last(), b.drop_last(), rest, less);
        assert(a =~= a.drop_last().push(a.last()));
        assert(b =~= b.drop_last().push(b.last()));
    }
}

/// Every finite set can be listed in order.
pub proof fn finite_sets_can_be_listed<V>(set: Set<V>, less: spec_fn(V, V) -> bool)
    requires
        strict_order(less),
        set.finite(),
    ensures
        lists(in_order(set, less), set, less),
{
    let list = listed_somehow(set, less);
    assert(lists(list, set, less));
}

proof fn listed_somehow<V>(set: Set<V>, less: spec_fn(V, V) -> bool) -> (list: Seq<V>)
    requires
        strict_order(less),
        set.finite(),
    ensures
        lists(list, set, less),
    decreases set.len(),
{
    if set.len() == 0 {
        assert(set =~= Set::empty());
        Seq::empty()
    } else {
        let item = set.choose();
        let rest = listed_somehow(set.remove(item), less);
        let list = item_inserted(rest, item, less);
        assert forall|other: V| #[trigger] list.contains(other) <==> set.contains(other) by {
            assert(rest.contains(other) <==> set.remove(item).contains(other));
        }
        list
    }
}

/// An element can be put into its place in a list.
proof fn item_inserted<V>(list: Seq<V>, item: V, less: spec_fn(V, V) -> bool) -> (longer: Seq<V>)
    requires
        strict_order(less),
        ascending(list, less),
        !list.contains(item),
    ensures
        ascending(longer, less),
        forall|other: V| #[trigger] longer.contains(other) <==> list.contains(other) || other == item,
        list.len() > 0 && less(item, list.last()) ==> longer.last() == list.last(),
        !(list.len() > 0 && less(item, list.last())) ==> longer.last() == item,
        longer.len() == list.len() + 1,
    decreases list.len(),
{
    if list.len() == 0 {
        let longer = seq![item];
        assert(longer[0] == item);
        longer
    } else {
        let last = list.last();
        assert(list.contains(last));
        if less(item, last) {
            let shorter = list.drop_last();
            assert forall|other: V| #[trigger] shorter.contains(other) <==> list.contains(other) && other != last by {
                if list.contains(other) && other != last {
                    let k = choose|k: int| 0 <= k < list.len() && list[k] == other;
                    assert(shorter[k] == other);
                }
                if shorter.contains(other) {
                    let k = choose|k: int| 0 <= k < shorter.len() && shorter[k] == other;
                    assert(list[k] == other);
                    assert(less(list[k], list[list.len() - 1]));
                }
            }
            let before = item_inserted(shorter, item, less);
            let longer = before.push(last);
            assert forall|i: int, j: int| 0 <= i < j < longer.len() implies less(#[trigger] longer[i], #[trigger] longer[j]) by {
                if j == before.len() {
                    assert(before.contains(before[i]));
                    if before[i] != item {
                        let k = choose|k: int| 0 <= k < shorter.len() && shorter[k] == before[i];
                        assert(less(list[k], list[list.len() - 1]));
                    }
                }
            }
            assert forall|other: V| #[trigger] longer.contains(other) <==> list.contains(other) || other == item by {
                if before.contains(other) {
                    let k = choose|k: int| 0 <= k < before.len() && before[k] == other;
                    assert(longer[k] == other);
                }
                if other == last {
                    assert(longer[before.len() as int] == last);
                }
                if longer.contains(other) {
                    let k = choose|k: int| 0 <= k < longer.len() && longer[k] == other;
                    if k < before.len() {
                        assert(before[k] == other);
                        assert(before.contains(other));
                    }
                }
            }
            longer
        } else {
            let longer = list.push(item);
            assert forall|i: int, j: int| 0 <= i < j < longer.len() implies less(#[trigger] longer[i], #[trigger] longer[j]) by {
                if j == list.len() && i < list.len() - 1 {
                }
            }
            assert forall|other: V| #[trigger] longer.contains(other) <==> list.contains(other) || other == item by {
                if list.contains(other) {
                    let k = choose|k: int| 0 <= k < list.len() && list[k] == other;
                    assert(longer[k] == other);
                }
                if other == item {
                    assert(longer[list.len() as int] == item);
                }
                if longer.contains(other) {
                    let k = choose|k: int| 0 <= k < longer.len() && longer[k] == other;
                    if k < list.len() {
                        assert(list[k] == other);
                    }
                }
            }
            longer
        }
    }
}

/// Values with a strict total order on what they stand for.
pub trait Ordered: View + Sized {
    spec fn less() -> spec_fn(Self::V, Self::V) -> bool;

    proof fn order_is_strict()
        ensures
            strict_order(Self::less()),
    ;

    fn comes_before(&self, other: &Self) -> (before: bool)
        ensures
            before == Self::less()(self@, other@),
    ;
}

/// Where `item` stands in the list or belongs, and whether it is there.
pub fn find_place<T: Ordered>(list: &Vec<T>, item: &T) -> (r: (usize, bool))
    requires
        ascending(views(list@), T::less()),
    ensures
        r.0 <= list@.len(),
        r.1 == views(list@).contains(item@),
        r.1 ==> r.0 < list@.len() && list@[r.0 as int]@ == item@,
        forall|i: int| 0 <= i < r.0 ==> T::less()((#[trigger] list@[i])@, item@),
        !r.1 ==> forall|i: int| r.0 <= i < list@.len() ==> T::less()(item@, (#[trigger] list@[i])@),
{
    proof {
        T::order_is_strict();
    }
    let ghost less = T::less();
    let mut low: usize = 0;
    let mut high: usize = list.len();
    while low < high
        invariant
            strict_order(less),
            less == T::less(),
            ascending(views(list@), less),
            low <= high <= list@.len(),
            forall|i: int| 0 <= i < low ==> less((#[trigger] list@[i])@, item@),
            forall|i: int| high <= i < list@.len() ==> !less((#[trigger] list@[i])@, item@),
        decreases high - low,
    {
        let middle: usize = low + (high - low) / 2;
        let before = list[middle].comes_before(item);
        proof {
            let seen = views(list@);
            assert(seen[middle as int] == list@[middle as int]@);
            if before {
                assert forall|i: int| 0 <= i < middle + 1 implies less((#[trigger] list@[i])@, item@) by {
                    if i < middle {
                        assert(seen[i] == list@[i]@);
                        assert(less(seen[i], seen[middle as int]));
                    }
                }
            } else {
                assert forall|i: int| middle <= i < list@.len() implies !less((#[trigger] list@[i])@, item@) by {
                    if i > middle {
                        assert(seen[i] == list@[i]@);
                        assert(less(seen[middle as int], seen[i]));
                        if less(list@[i]@, item@) {
                            assert(less(seen[middle as int], item@));
                        }
                    }
                }
            }
        }
        if before {
            low = middle + 1;
        } else {
            high = middle;
        }
    }
    let found = low < list.len() && !item.comes_before(&list[low]);
    proof {
        let seen = views(list@);
        if found {
            assert(!less(list@[low as int]@, item@));
            assert(less(list@[low as int]@, item@) || less(item@, list@[low as int]@) || list@[low as int]@ == item@);
            assert(seen[low as int] == item@);
        } else {
            assert forall|i: int| low <= i < list@.len() implies less(item@, (#[trigger] list@[i])@) by {
                if i > low {
                    assert(less(seen[low as int], seen[i]));
                    assert(seen[low as int] == list@[low as int]@);
                }
            }
            if seen.contains(item@) {
                let k = choose|k: int| 0 <= k < seen.len() && seen[k] == item@;
                assert(list@[k]@ == item@);
                assert(less(item@, item@));
            }
        }
    }
    (low, found)
}

/// Inserting at the place where an item belongs keeps the order.
pub proof fn insertion_keeps_order<V>(list: Seq<V>, at: int, item: V, less: spec_fn(V, V) -> bool)
    requires
        ascending(list, less),
        0 <= at <= list.len(),
        forall|i: int| 0 <= i < at ==> less(#[trigger] list[i], item),
        forall|i: int| at <= i < list.len() ==> less(item, #[trigger] list[i]),
    ensures
        ascending(list.insert(at, item), less),
        forall|v: V| #[trigger] list.insert(at, item).contains(v) <==> list.contains(v) || v == item,
{
    let after = list.insert(at, item);
    assert forall|i: int, j: int| 0 <= i < j < after.len() implies less(#[trigger] after[i], #[trigger] after[j]) by {
        let a = if i < at { i } else { i - 1 };
        let b = if j < at { j } else { j - 1 };
        if i != at && j != at {
            assert(less(list[a], list[b]));
        }
    }
    assert forall|v: V| #[trigger] after.contains(v) <==> list.contains(v) || v == item by {
        if list.contains(v) {
            let k = choose|k: int| 0 <= k < list.len() && list[k] == v;
            assert(after[if k < at { k } else { k + 1 }] == v);
        }
        if v == item {
            assert(after[at] == item);
        }
        if after.contains(v) && v != item {
            let k = choose|k: int| 0 <= k < after.len() && after[k] == v;
            assert(list[if k < at { k } else { k - 1 }] == v);
        }
    }
}

/// Puts an item into a list unless it is there.
pub fn insert_ordered<T: Ordered>(list: &mut Vec<T>, item: T)
    requires
        ascending(views(old(list)@), T::less()),
    ensures
        ascending(views(final(list)@), T::less()),
        forall|v: T::V| #[trigger] views(final(list)@).contains(v) <==> views(old(list)@).contains(v) || v == item@,
        final(list)@.len() == if views(old(list)@).contains(item@) { old(list)@.len() } else { old(list)@.len() + 1 },
{
    let (at, found) = find_place(list, &item);
    if !found {
        let ghost before = views(list@);
        proof {
            assert forall|i: int| 0 <= i < at implies T::less()(#[trigger] before[i], item@) by {
                assert(before[i] == list@[i]@);
            }
            assert forall|i: int| at <= i < before.len() implies T::less()(item@, #[trigger] before[i]) by {
                assert(before[i] == list@[i]@);
            }
            insertion_keeps_order(before, at as int, item@, T::less());
        }
        list.insert(at, item);
        assert(views(list@) =~= before.insert(at as int, item@));
    }
}

} // verus!
