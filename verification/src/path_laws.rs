//! What paths mean, character by character.

use crate::parse::{split_has_parts, split_text};
use crate::path::{components, is_absolute, named_parts, path_joined, path_start, path_within, same_path, ComponentView};
use vstd::prelude::*;

verus! {

/// The texts with a separator between each two of them.
pub open spec fn joined_with(parts: Seq<Seq<char>>, separator: char) -> Seq<char>
    decreases parts.len(),
{
    if parts.len() == 0 {
        Seq::empty()
    } else if parts.len() == 1 {
        parts[0]
    } else {
        joined_with(parts.drop_last(), separator).push(separator) + parts.last()
    }
}

/// Splitting loses nothing and leaves no separator: the parts, put together
/// again, are the text, and none of them can be split further.
pub proof fn split_parts_join_back(text: Seq<char>, separator: char)
    ensures
        joined_with(split_text(text, separator), separator) == text,
        forall|i: int, j: int|
            0 <= i < split_text(text, separator).len() && 0 <= j < split_text(text, separator)[i].len() ==> (
            #[trigger] split_text(text, separator)[i][j]) != separator,
    decreases text.len(),
{
    let parts = split_text(text, separator);
    if text.len() > 0 {
        let rest = split_text(text.drop_last(), separator);
        split_parts_join_back(text.drop_last(), separator);
        split_has_parts(text.drop_last(), separator);
        assert(text.drop_last().push(text.last()) =~= text);
        if text.last() == separator {
            assert(parts.drop_last() =~= rest);
            assert(joined_with(parts, separator) =~= text);
            assert forall|i: int, j: int| 0 <= i < parts.len() && 0 <= j < parts[i].len() implies (#[trigger] parts[i][j])
                != separator by {
                assert(i < rest.len());
                assert(parts[i] == rest[i]);
                assert(rest[i][j] != separator);
            }
        } else {
            assert(parts.drop_last() =~= rest.drop_last());
            assert(joined_with(parts, separator) =~= text);
            assert forall|i: int, j: int| 0 <= i < parts.len() && 0 <= j < parts[i].len() implies (#[trigger] parts[i][j])
                != separator by {
                if i < rest.len() - 1 {
                    assert(parts[i] == rest[i]);
                    assert(rest[i][j] != separator);
                } else if j < rest[i].len() {
                    assert(rest[i][j] != separator);
                }
            }
        }
    }
}

/// Two texts with a separator between them split into the parts of both.
pub proof fn splitting_takes_sides(left: Seq<char>, right: Seq<char>, separator: char)
    ensures
        split_text(left.push(separator) + right, separator) == split_text(left, separator) + split_text(right, separator),
    decreases right.len(),
{
    let whole = left.push(separator) + right;
    if right.len() == 0 {
        assert(whole.drop_last() =~= left);
        assert(split_text(whole, separator) =~= split_text(left, separator) + split_text(right, separator));
    } else {
        splitting_takes_sides(left, right.drop_last(), separator);
        split_has_parts(right.drop_last(), separator);
        assert(whole.drop_last() =~= left.push(separator) + right.drop_last());
        assert(split_text(whole, separator) =~= split_text(left, separator) + split_text(right, separator));
    }
}

/// A text without the separator is one part.
pub proof fn a_text_without_separator(text: Seq<char>, separator: char)
    requires
        !text.contains(separator),
    ensures
        split_text(text, separator) == seq![text],
    decreases text.len(),
{
    if text.len() > 0 {
        assert(text[text.len() - 1] == text.last());
        assert forall|c: char| text.drop_last().contains(c) implies text.contains(c) by {
            let i = choose|i: int| 0 <= i < text.drop_last().len() && text.drop_last()[i] == c;
            assert(text[i] == c);
        }
        a_text_without_separator(text.drop_last(), separator);
        assert(text.drop_last().push(text.last()) =~= text);
        assert(split_text(text, separator) =~= seq![text]);
    } else {
        assert(text =~= Seq::empty());
        assert(split_text(text, separator) =~= seq![text]);
    }
}

proof fn named_parts_add_up(a: Seq<Seq<char>>, b: Seq<Seq<char>>)
    ensures
        named_parts(a + b) == named_parts(a) + named_parts(b),
    decreases b.len(),
{
    if b.len() == 0 {
        assert(a + b =~= a);
        assert(named_parts(a) + named_parts(b) =~= named_parts(a));
    } else {
        named_parts_add_up(a, b.drop_last());
        assert((a + b).drop_last() =~= a + b.drop_last());
        assert((a + b).last() == b.last());
        assert(named_parts(a + b) =~= named_parts(a) + named_parts(b));
    }
}

/// A path of one part is nothing, the current directory, or a name.
pub proof fn one_part_is_one_component(part: Seq<char>)
    requires
        !part.contains('/'),
    ensures
        components(part) == (if part.len() == 0 {
            Seq::empty()
        } else if part == seq!['.'] {
            seq![ComponentView::Current]
        } else {
            seq![ComponentView::Name(part)]
        }),
{
    reveal_strlit(".");
    assert("."@ =~= seq!['.']);
    a_text_without_separator(part, '/');
    if part.len() > 0 {
        assert(part.contains(part[0]));
    }
    reveal_with_fuel(named_parts, 2);
    let parts = seq![part];
    assert(parts.last() == part);
    assert(parts.drop_last() =~= Seq::<Seq<char>>::empty());
    assert(split_text(part, '/')[0] == part);
    assert(components(part) =~= (if part.len() == 0 {
        Seq::empty()
    } else if part == seq!['.'] {
        seq![ComponentView::Current]
    } else {
        seq![ComponentView::Name(part)]
    }));
}

/// A slash and one more part lead one component further, unless the part is
/// empty or a dot, which lead nowhere. A slash at the very start is the root.
pub proof fn each_part_adds_one_component(path: Seq<char>, part: Seq<char>)
    requires
        !part.contains('/'),
    ensures
        ({
            let above = if path.len() == 0 {
                seq![ComponentView::Root]
            } else {
                components(path)
            };
            components(path.push('/') + part) == if part.len() == 0 || part == seq!['.'] {
                above
            } else {
                above.push(ComponentView::Name(part))
            }
        }),
{
    reveal_strlit(".");
    assert("."@ =~= seq!['.']);
    let whole = path.push('/') + part;
    splitting_takes_sides(path, part, '/');
    a_text_without_separator(part, '/');
    split_has_parts(path, '/');
    named_parts_add_up(split_text(path, '/'), seq![part]);
    reveal_with_fuel(named_parts, 2);
    assert(seq![part].last() == part);
    assert(seq![part].drop_last() =~= Seq::<Seq<char>>::empty());
    assert(split_text(whole, '/')[0] == split_text(path, '/')[0]);
    if path.len() == 0 {
        assert(path =~= Seq::empty());
        let empties = split_text(path, '/');
        assert(empties.last().len() == 0);
        assert(empties.drop_last() =~= Seq::<Seq<char>>::empty());
        assert(named_parts(empties) =~= Seq::<ComponentView>::empty());
        assert(whole[0] == '/');
    } else {
        assert(whole[0] == path[0]);
        assert(path_start(whole) == path_start(path));
    }
    let above = if path.len() == 0 {
        seq![ComponentView::Root]
    } else {
        components(path)
    };
    assert(components(whole) =~= if part.len() == 0 || part == seq!['.'] {
        above
    } else {
        above.push(ComponentView::Name(part))
    });
}

/// Whatever follows a slash stays below what came before it.
pub proof fn what_follows_a_slash_lies_below(path: Seq<char>, rest: Seq<char>)
    requires
        path.len() > 0,
    ensures
        components(path.push('/') + rest).len() >= components(path).len(),
        components(path.push('/') + rest).take(components(path).len() as int) == components(path),
{
    let whole = path.push('/') + rest;
    splitting_takes_sides(path, rest, '/');
    split_has_parts(path, '/');
    named_parts_add_up(split_text(path, '/'), split_text(rest, '/'));
    assert(whole[0] == path[0]);
    assert(split_text(whole, '/')[0] == split_text(path, '/')[0]);
    assert(path_start(whole) == path_start(path));
    assert(components(whole) =~= components(path) + named_parts(split_text(rest, '/')));
    assert(components(whole).take(components(path).len() as int) =~= components(path));
}

/// A relative name below a directory is one component further; an absolute
/// one replaces the directory.
pub proof fn joining_leads_below(base: Seq<char>, name: Seq<char>)
    ensures
        name.len() > 0 && name[0] == '/' ==> path_joined(base, name) == name,
        !name.contains('/') && name.len() > 0 && name != seq!['.'] ==> components(path_joined(base, name)) == components(
            base,
        ).push(ComponentView::Name(name)),
{
    reveal_strlit("/");
    assert("/"@ =~= seq!['/']);
    if !name.contains('/') && name.len() > 0 && name != seq!['.'] {
        assert(name.contains(name[0]));
        if base.len() == 0 {
            one_part_is_one_component(name);
            one_part_is_one_component(base);
            assert(base + name =~= name);
            assert(components(path_joined(base, name)) =~= components(base).push(ComponentView::Name(name)));
        } else if base.last() == '/' {
            let above = base.drop_last();
            assert(above.push('/') + name =~= base + name);
            assert(above.push('/') + Seq::<char>::empty() =~= base);
            assert(!Seq::<char>::empty().contains('/'));
            each_part_adds_one_component(above, name);
            each_part_adds_one_component(above, Seq::empty());
        } else {
            assert(base + "/"@ + name =~= base.push('/') + name);
            each_part_adds_one_component(base, name);
        }
    }
}

/// A path lies within another exactly if it has all of its components, in
/// order, at its start; two paths are the same exactly if each lies within
/// the other.
pub proof fn lying_within_is_having_the_start(path: Seq<char>, base: Seq<char>)
    ensures
        path_within(path, base) <==> {
            &&& components(base).len() <= components(path).len()
            &&& forall|i: int| 0 <= i < components(base).len() ==> components(path)[i] == #[trigger] components(base)[i]
        },
        same_path(path, base) <==> path_within(path, base) && path_within(base, path),
        same_path(path, base) <==> {
            &&& components(base).len() == components(path).len()
            &&& forall|i: int| 0 <= i < components(base).len() ==> components(path)[i] == #[trigger] components(base)[i]
        },
{
    let a = components(path);
    let b = components(base);
    if b.len() <= a.len() && (forall|i: int| 0 <= i < b.len() ==> a[i] == #[trigger] b[i]) {
        assert(b =~= a.subrange(0, b.len() as int));
    }
    if path_within(path, base) {
        assert forall|i: int| 0 <= i < b.len() implies a[i] == #[trigger] b[i] by {
            assert(a.subrange(0, b.len() as int)[i] == a[i]);
        }
    }
    if path_within(path, base) && path_within(base, path) {
        assert(a.subrange(0, b.len() as int) =~= a);
    }
    if same_path(path, base) {
        assert(a.subrange(0, a.len() as int) =~= a);
    }
    if b.len() == a.len() && (forall|i: int| 0 <= i < b.len() ==> a[i] == #[trigger] b[i]) {
        assert(a =~= b);
    }
}

/// A path is absolute exactly if its first component is the root.
pub proof fn absolute_paths_start_at_the_root(path: Seq<char>)
    ensures
        is_absolute(path) <==> components(path).len() > 0 && components(path)[0] is Root,
        is_absolute(path) <==> path.len() > 0 && path[0] == '/',
{
    named_parts_are_names(split_text(path, '/'));
    if !is_absolute(path) && path_start(path).len() == 0 {
        assert(components(path) =~= named_parts(split_text(path, '/')));
    }
}

proof fn named_parts_are_names(parts: Seq<Seq<char>>)
    ensures
        forall|i: int| 0 <= i < named_parts(parts).len() ==> (#[trigger] named_parts(parts)[i]) is Name,
    decreases parts.len(),
{
    if parts.len() > 0 {
        named_parts_are_names(parts.drop_last());
    }
}

} // verus!
