//! Unix paths held as text, compared by their components.

use crate::parse::{split_at_each, split_has_parts, split_text};
use crate::text::{characters, joined, same_text};
use crate::views::{views, views_push};
use vstd::prelude::*;

verus! {

/// One step of a path.
pub enum Component {
    Root,
    Current,
    Name(String),
}

pub enum ComponentView {
    Root,
    Current,
    Name(Seq<char>),
}

impl View for Component {
    type V = ComponentView;

    open spec fn view(&self) -> ComponentView {
        match self {
            Component::Root => ComponentView::Root,
            Component::Current => ComponentView::Current,
            Component::Name(name) => ComponentView::Name(name@),
        }
    }
}

/// A part between slashes that names something: not empty and not `.`.
pub open spec fn names_something(part: Seq<char>) -> bool {
    part.len() > 0 && part != "."@
}

pub open spec fn is_absolute(path: Seq<char>) -> bool {
    path.len() > 0 && path[0] == '/'
}

/// What a path starts at: the root, an explicit current directory, or neither.
pub open spec fn path_start(path: Seq<char>) -> Seq<ComponentView> {
    if is_absolute(path) {
        seq![ComponentView::Root]
    } else if split_text(path, '/')[0] == "."@ {
        seq![ComponentView::Current]
    } else {
        Seq::empty()
    }
}

/// The parts that name something, in order.
pub open spec fn named_parts(parts: Seq<Seq<char>>) -> Seq<ComponentView>
    decreases parts.len(),
{
    if parts.len() == 0 {
        Seq::empty()
    } else if names_something(parts.last()) {
        named_parts(parts.drop_last()).push(ComponentView::Name(parts.last()))
    } else {
        named_parts(parts.drop_last())
    }
}

/// The components of a path: repeated and trailing slashes and inner `.` do
/// not count.
pub open spec fn components(path: Seq<char>) -> Seq<ComponentView> {
    path_start(path) + named_parts(split_text(path, '/'))
}

/// Two spellings of one path.
pub open spec fn same_path(a: Seq<char>, b: Seq<char>) -> bool {
    components(a) == components(b)
}

/// `base` is `path` or one of the directories above it.
pub open spec fn path_within(path: Seq<char>, base: Seq<char>) -> bool {
    components(base).is_prefix_of(components(path))
}

/// `name` below the directory `base`.
pub open spec fn path_joined(base: Seq<char>, name: Seq<char>) -> Seq<char> {
    if is_absolute(name) {
        name
    } else if base.len() == 0 || base.last() == '/' {
        base + name
    } else {
        base + "/"@ + name
    }
}

/// Being the same path is an equivalence.
pub proof fn same_path_is_an_equivalence(a: Seq<char>, b: Seq<char>, c: Seq<char>)
    ensures
        same_path(a, a),
        same_path(a, b) ==> same_path(b, a),
        same_path(a, b) && same_path(b, c) ==> same_path(a, c),
        same_path(a, b) ==> path_within(a, b),
{
}

/// Whether a path starts at the root.
pub fn absolute(path: &str) -> (r: bool)
    ensures
        r == is_absolute(path@),
{
    let list = characters(path);
    list.len() > 0 && list[0] == '/'
}

fn name_part(part: &str) -> (r: bool)
    ensures
        r == names_something(part@),
{
    !part.is_empty() && !same_text(part, ".")
}

/// The components of a path.
pub fn path_components(path: &str) -> (list: Vec<Component>)
    ensures
        views(list@) == components(path@),
{
    let parts = split_at_each(path, '/');
    let mut list: Vec<Component> = Vec::new();
    assert(views(list@) =~= Seq::<ComponentView>::empty());
    if absolute(path) {
        proof { views_push(list@, Component::Root); }
        list.push(Component::Root);
        assert(views(list@) =~= path_start(path@));
    } else if parts.len() > 0 && same_text(parts[0].as_str(), ".") {
        proof { views_push(list@, Component::Current); }
        assert(views(parts@)[0] == parts@[0]@);
        list.push(Component::Current);
        assert(views(list@) =~= path_start(path@));
    } else {
        proof {
            if parts@.len() > 0 {
                assert(views(parts@)[0] == parts@[0]@);
            } else {
                split_has_parts(path@, '/');
            }
        }
    }
    let ghost start = path_start(path@);
    let mut i: usize = 0;
    assert(views(parts@).take(0) =~= Seq::<Seq<char>>::empty());
    assert(start + named_parts(views(parts@).take(0)) =~= start);
    while i < parts.len()
        invariant
            i <= parts@.len(),
            views(parts@) == split_text(path@, '/'),
            views(list@) == start + named_parts(views(parts@).take(i as int)),
        decreases parts@.len() - i,
    {
        proof {
            assert(views(parts@).take(i + 1).drop_last() =~= views(parts@).take(i as int));
            assert(views(parts@).take(i + 1).last() == parts@[i as int]@);
        }
        if name_part(parts[i].as_str()) {
            let name = Component::Name(parts[i].clone());
            proof {
                views_push(list@, name);
                assert((start + named_parts(views(parts@).take(i as int))).push(name@) =~= start + named_parts(views(parts@).take(i + 1)));
            }
            list.push(name);
        }
        i += 1;
    }
    assert(views(parts@).take(i as int) =~= views(parts@));
    list
}

fn same_component(a: &Component, b: &Component) -> (same: bool)
    ensures
        same == (a@ == b@),
{
    match (a, b) {
        (Component::Root, Component::Root) => true,
        (Component::Current, Component::Current) => true,
        (Component::Name(x), Component::Name(y)) => same_text(x.as_str(), y.as_str()),
        _ => false,
    }
}

fn begins_with(list: &Vec<Component>, prefix: &Vec<Component>) -> (r: bool)
    ensures
        r == views(prefix@).is_prefix_of(views(list@)),
{
    if prefix.len() > list.len() {
        return false;
    }
    let mut i: usize = 0;
    while i < prefix.len()
        invariant
            i <= prefix@.len() <= list@.len(),
            forall|j: int| 0 <= j < i ==> (#[trigger] prefix@[j])@ == list@[j]@,
        decreases prefix@.len() - i,
    {
        if !same_component(&prefix[i], &list[i]) {
            assert(views(prefix@)[i as int] != views(list@)[i as int]);
            assert(views(list@).subrange(0, views(prefix@).len() as int)[i as int] == views(list@)[i as int]);
            return false;
        }
        i += 1;
    }
    assert(views(prefix@) =~= views(list@).subrange(0, views(prefix@).len() as int));
    true
}

/// Whether two paths are the same.
pub fn paths_equal(a: &str, b: &str) -> (same: bool)
    ensures
        same == same_path(a@, b@),
{
    let left = path_components(a);
    let right = path_components(b);
    if left.len() != right.len() {
        assert(views(left@).len() != views(right@).len());
        return false;
    }
    let same = begins_with(&left, &right);
    proof {
        if same {
            assert(views(left@) =~= views(right@));
        } else {
            assert(views(left@).subrange(0, views(left@).len() as int) =~= views(left@));
        }
    }
    same
}

/// Whether `path` is `base` or lies below it.
pub fn lies_within(path: &str, base: &str) -> (within: bool)
    ensures
        within == path_within(path@, base@),
{
    let list = path_components(path);
    let prefix = path_components(base);
    begins_with(&list, &prefix)
}

/// `name` below `base`.
pub fn join_path(base: &str, name: &str) -> (path: String)
    ensures
        path@ == path_joined(base@, name@),
{
    if absolute(name) {
        return name.to_owned();
    }
    let list = characters(base);
    if list.len() == 0 || list[list.len() - 1] == '/' {
        joined(base, name)
    } else {
        let mut path = joined(base, "/");
        path.append(name);
        path
    }
}

} // verus!
