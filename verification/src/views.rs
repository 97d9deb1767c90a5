//! Views of lists and options, element by element.

use vstd::prelude::*;

verus! {

/// The views of the elements of a list.
pub open spec fn views<T: View>(list: Seq<T>) -> Seq<T::V> {
    Seq::new(list.len(), |i: int| list[i]@)
}

/// The view of an optional value.
pub open spec fn option_view<T: View>(value: Option<T>) -> Option<T::V> {
    match value {
        Some(inner) => Some(inner@),
        None => None,
    }
}

/// The view behind an optional reference.
pub open spec fn option_ref_view<T: View>(value: Option<&T>) -> Option<T::V> {
    match value {
        Some(inner) => Some(inner@),
        None => None,
    }
}

pub proof fn views_push<T: View>(list: Seq<T>, item: T)
    ensures
        views(list.push(item)) == views(list).push(item@),
{
    assert(views(list.push(item)) =~= views(list).push(item@));
}

pub proof fn views_remove<T: View>(list: Seq<T>, at: int)
    requires
        0 <= at < list.len(),
    ensures
        views(list.remove(at)) == views(list).remove(at),
{
    assert(views(list.remove(at)) =~= views(list).remove(at));
}

pub proof fn views_update<T: View>(list: Seq<T>, at: int, item: T)
    requires
        0 <= at < list.len(),
    ensures
        views(list.update(at, item)) == views(list).update(at, item@),
{
    assert(views(list.update(at, item)) =~= views(list).update(at, item@));
}

/// The same texts once more.
pub fn copied_texts(list: &Vec<String>) -> (copy: Vec<String>)
    ensures
        views(copy@) == views(list@),
{
    let mut copy: Vec<String> = Vec::new();
    let mut i: usize = 0;
    while i < list.len()
        invariant
            i <= list@.len(),
            views(copy@) == views(list@).take(i as int),
        decreases list@.len() - i,
    {
        proof {
            views_push(copy@, list@[i as int]);
            assert(views(list@).take(i + 1) =~= views(list@).take(i as int).push(views(list@)[i as int]));
        }
        copy.push(list[i].clone());
        i += 1;
    }
    assert(views(list@).take(i as int) =~= views(list@));
    copy
}

/// A copy of an optional text.
pub fn copied_text(text: &Option<String>) -> (copy: Option<String>)
    ensures
        option_view(copy) == option_view(*text),
{
    match text {
        Some(inner) => Some(inner.clone()),
        None => None,
    }
}

/// Every element, if all of them are there.
pub open spec fn all_of<T>(list: Seq<Option<T>>) -> Option<Seq<T>> {
    if forall|i: int| 0 <= i < list.len() ==> (#[trigger] list[i]) is Some {
        Some(Seq::new(list.len(), |i: int| list[i]->0))
    } else {
        None
    }
}

} // verus!
