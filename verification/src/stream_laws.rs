//! How a stream of bytes falls into lines, and what is found in a line that is
//! too long.

use crate::framing::{closing_quote, end_of_string, field_from, freed, id_key, ingress_fits, is_blank, is_wanted_key, kind_key, last_solid, line_end,
    lines_after, next_solid, oversized_request_id, top_level_field, value_behind, Counter, Lines};
use crate::json::json_string_parsed;
use crate::limits::Limits;
use vstd::prelude::*;

verus! {

// ---------------------------------------------------------------------------
// Lines

proof fn plain_bytes_are_added(lines: Lines, bytes: Seq<u8>, limit: usize)
    requires
        !lines.oversized,
        lines.partial.len() + bytes.len() <= limit,
        !bytes.contains(10u8),
    ensures
        lines_after(lines, bytes, limit) == (Lines { partial: lines.partial + bytes, ..lines }),
    decreases bytes.len(),
{
    if bytes.len() == 0 {
        assert(lines.partial + bytes =~= lines.partial);
    } else {
        let shorter = bytes.drop_last();
        assert(bytes.contains(bytes.last()));
        assert(!shorter.contains(10u8)) by {
            if shorter.contains(10u8) {
                let i = choose|i: int| 0 <= i < shorter.len() && shorter[i] == 10u8;
                assert(bytes[i] == 10u8);
            }
        }
        plain_bytes_are_added(lines, shorter, limit);
        assert((lines.partial + shorter).push(bytes.last()) =~= lines.partial + bytes);
    }
}

/// After any lines, a line of up to the limit is read as it is, without its
/// break, and the next one begins.
pub proof fn lines_are_read_one_by_one(lines: Lines, line: Seq<u8>, limit: usize)
    requires
        !lines.oversized,
        lines.partial.len() == 0,
        line.len() <= limit,
        !line.contains(10u8),
    ensures
        ({
            let after = lines_after(lines, line.push(10u8), limit);
            &&& after.frames == lines.frames.push(line)
            &&& after.partial.len() == 0
            &&& !after.oversized
        }),
{
    plain_bytes_are_added(lines, line, limit);
    assert(line.push(10u8).drop_last() =~= line);
    assert(lines.partial + line =~= line);
}

/// A line that goes on beyond the limit is too long: what was read of it is
/// kept up to the limit, no line is read any more, and whatever follows
/// changes nothing.
pub proof fn long_lines_end_the_reading(lines: Lines, line: Seq<u8>, rest: Seq<u8>, limit: usize)
    requires
        !lines.oversized,
        lines.partial.len() == 0,
        line.len() == limit + 1,
        !line.contains(10u8),
    ensures
        ({
            let after = lines_after(lines, line + rest, limit);
            &&& after.oversized
            &&& after.frames == lines.frames
            &&& after.partial == line.take(limit as int)
        }),
{
    let head = line.take(limit as int);
    assert(!head.contains(10u8)) by {
        if head.contains(10u8) {
            let i = choose|i: int| 0 <= i < head.len() && head[i] == 10u8;
            assert(line[i] == 10u8);
        }
    }
    plain_bytes_are_added(lines, head, limit);
    assert(line.drop_last() =~= head);
    assert(line.contains(line.last()));
    assert(lines.partial + head =~= head);
    let full = lines_after(lines, line, limit);
    assert(full.oversized);
    crate::framing::chunking_does_not_matter(lines, line, rest, limit);
    nothing_follows(full, rest, limit);
}

proof fn nothing_follows(lines: Lines, rest: Seq<u8>, limit: usize)
    requires
        lines.oversized,
    ensures
        lines_after(lines, rest, limit) == lines,
    decreases rest.len(),
{
    if rest.len() > 0 {
        nothing_follows(lines, rest.drop_last(), limit);
    }
}

/// A line ends at its first break, or where the bytes do.
pub proof fn lines_end_at_the_first_break(line: Seq<u8>, rest: Seq<u8>)
    requires
        !line.contains(10u8),
    ensures
        line_end(line.push(10u8) + rest) == line.len(),
        line_end(line) == line.len(),
    decreases line.len(),
{
    if line.len() > 0 {
        assert(line.contains(line[0]));
        let tail = line.drop_first();
        assert(!tail.contains(10u8)) by {
            if tail.contains(10u8) {
                let i = choose|i: int| 0 <= i < tail.len() && tail[i] == 10u8;
                assert(line[i + 1] == 10u8);
            }
        }
        lines_end_at_the_first_break(tail, rest);
        assert((line.push(10u8) + rest).drop_first() =~= tail.push(10u8) + rest);
    }
}

// ---------------------------------------------------------------------------
// Members of an object

/// Bytes that can stand between quotes as they are.
pub open spec fn is_plain(bytes: Seq<u8>) -> bool {
    forall|i: int| 0 <= i < bytes.len() ==> #[trigger] bytes[i] != 34 && bytes[i] != 92
}

/// A text between quotes.
pub open spec fn quoted(bytes: Seq<u8>) -> Seq<u8> {
    seq![34u8] + bytes + seq![34u8]
}

/// A key and a text behind it, with the colon between them.
pub open spec fn member(key: Seq<u8>, value: Seq<u8>) -> Seq<u8> {
    quoted(key) + seq![58u8] + quoted(value)
}

/// Members with a comma behind each.
pub open spec fn members(list: Seq<(Seq<u8>, Seq<u8>)>) -> Seq<u8>
    decreases list.len(),
{
    if list.len() == 0 {
        Seq::empty()
    } else {
        member(list[0].0, list[0].1) + seq![44u8] + members(list.drop_first())
    }
}

/// All keys and texts of the members are plain, and none of the keys is that
/// one.
pub open spec fn are_others(list: Seq<(Seq<u8>, Seq<u8>)>, wanted: Seq<u8>) -> bool {
    forall|i: int| 0 <= i < list.len() ==> is_plain((#[trigger] list[i]).0) && is_plain(list[i].1) && list[i].0 != wanted
}

/// The bytes stand at that place of others.
pub open spec fn stands_in(bytes: Seq<u8>, part: Seq<u8>, at: int) -> bool {
    &&& 0 <= at
    &&& at + part.len() <= bytes.len()
    &&& forall|i: int| 0 <= i < part.len() ==> #[trigger] bytes[at + i] == part[i]
}

proof fn quotes_close(bytes: Seq<u8>, text: Seq<u8>, at: int, from: int)
    requires
        is_plain(text),
        stands_in(bytes, text.push(34u8), at),
        0 <= from <= text.len(),
    ensures
        closing_quote(bytes, at + from, false) == Some(at + text.len() + 1),
    decreases text.len() - from,
{
    assert(bytes[at + from] == text.push(34u8)[from]);
    if from < text.len() {
        assert(text[from] != 34 && text[from] != 92);
        quotes_close(bytes, text, at, from + 1);
    }
}

proof fn strings_end(bytes: Seq<u8>, text: Seq<u8>, at: int)
    requires
        is_plain(text),
        stands_in(bytes, quoted(text), at),
    ensures
        end_of_string(bytes, at) == Some(at + text.len() + 2),
        bytes.subrange(at + 1, at + text.len() + 1) == text,
        bytes[at] == 34,
{
    let all = quoted(text);
    assert(bytes[at + 0] == all[0]);
    assert(stands_in(bytes, text.push(34u8), at + 1)) by {
        assert forall|i: int| 0 <= i < text.push(34u8).len() implies #[trigger] bytes[at + 1 + i] == text.push(34u8)[i] by {
            assert(bytes[at + (1 + i)] == all[1 + i]);
        }
    }
    quotes_close(bytes, text, at + 1, 0);
    assert(bytes.subrange(at + 1, at + text.len() + 1) =~= text) by {
        assert forall|i: int| 0 <= i < text.len() implies bytes.subrange(at + 1, at + text.len() + 1)[i] == text[i] by {
            assert(bytes[at + (1 + i)] == all[1 + i]);
        }
    }
}

proof fn parts_stand_in(bytes: Seq<u8>, first: Seq<u8>, second: Seq<u8>, at: int)
    requires
        stands_in(bytes, first + second, at),
    ensures
        stands_in(bytes, first, at),
        stands_in(bytes, second, at + first.len()),
{
    assert forall|i: int| 0 <= i < first.len() implies #[trigger] bytes[at + i] == first[i] by {
        assert((first + second)[i] == first[i]);
    }
    assert forall|i: int| 0 <= i < second.len() implies #[trigger] bytes[at + first.len() + i] == second[i] by {
        assert(bytes[at + (first.len() + i)] == (first + second)[first.len() + i]);
    }
}

proof fn other_members_are_passed_over(bytes: Seq<u8>, list: Seq<(Seq<u8>, Seq<u8>)>, wanted: Seq<u8>, limit: int, at: int)
    requires
        are_others(list, wanted),
        at > 0,
        stands_in(bytes, members(list), at),
        bytes[at - 1] == 123 || bytes[at - 1] == 44,
    ensures
        field_from(bytes, wanted, limit, at, 1, 0) == field_from(bytes, wanted, limit, at + members(list).len(), 1, 0),
        ({
            let before = bytes[at + members(list).len() - 1];
            before == 123 || before == 44
        }),
    decreases list.len(),
{
    if list.len() > 0 {
        let (key, value) = list[0];
        let tail = list.drop_first();
        assert(is_plain(key) && is_plain(value) && key != wanted);
        let own = member(key, value) + seq![44u8];
        parts_stand_in(bytes, own, members(tail), at);
        parts_stand_in(bytes, member(key, value), seq![44u8], at);
        parts_stand_in(bytes, quoted(key) + seq![58u8], quoted(value), at);
        parts_stand_in(bytes, quoted(key), seq![58u8], at);
        let colon = at + key.len() + 2;
        let start = colon + 1;
        let comma = start + value.len() + 2;
        assert(bytes[colon + 0] == 58u8) by {
            assert(stands_in(bytes, seq![58u8], colon));
        }
        assert(bytes[comma + 0] == 44u8) by {
            assert(stands_in(bytes, seq![44u8], comma));
        }
        strings_end(bytes, key, at);
        strings_end(bytes, value, start);
        reveal_with_fuel(field_from, 2);
        assert(!is_wanted_key(bytes, at, colon, wanted, 1, 0));
        assert(field_from(bytes, wanted, limit, at, 1, 0) == field_from(bytes, wanted, limit, colon, 1, 0));
        assert(field_from(bytes, wanted, limit, colon, 1, 0) == field_from(bytes, wanted, limit, start, 1, 0));
        assert(last_solid(bytes, start) == Some(58u8));
        assert(!is_wanted_key(bytes, start, comma, wanted, 1, 0));
        assert(field_from(bytes, wanted, limit, start, 1, 0) == field_from(bytes, wanted, limit, comma, 1, 0));
        assert(field_from(bytes, wanted, limit, comma, 1, 0) == field_from(bytes, wanted, limit, comma + 1, 1, 0));
        assert forall|i: int| 0 <= i < tail.len() implies is_plain((#[trigger] tail[i]).0) && is_plain(tail[i].1) && tail[i].0
            != wanted by {
            assert(list[i + 1] == tail[i]);
        }
        assert(own.len() == key.len() + value.len() + 6);
        assert(comma + 1 == at + own.len());
        other_members_are_passed_over(bytes, tail, wanted, limit, comma + 1);
        assert(members(list).len() == own.len() + members(tail).len());
    }
}

proof fn the_member_is_read(bytes: Seq<u8>, wanted: Seq<u8>, value: Seq<u8>, limit: int, at: int)
    requires
        is_plain(wanted),
        is_plain(value),
        at > 0,
        stands_in(bytes, member(wanted, value), at),
        bytes[at - 1] == 123 || bytes[at - 1] == 44,
    ensures
        field_from(bytes, wanted, limit, at, 1, 0) == if value.len() > limit {
            None
        } else {
            json_string_parsed(quoted(value))
        },
{
    parts_stand_in(bytes, quoted(wanted) + seq![58u8], quoted(value), at);
    parts_stand_in(bytes, quoted(wanted), seq![58u8], at);
    let colon = at + wanted.len() + 2;
    let start = colon + 1;
    assert(bytes[colon + 0] == 58u8) by {
        assert(stands_in(bytes, seq![58u8], colon));
    }
    strings_end(bytes, wanted, at);
    strings_end(bytes, value, start);
    assert(last_solid(bytes, at) == Some(bytes[at - 1]));
    assert(is_wanted_key(bytes, at, colon, wanted, 1, 0));
    assert(field_from(bytes, wanted, limit, at, 1, 0) == value_behind(bytes, colon, limit));
    assert(next_solid(bytes, colon) == Some(colon));
    assert(next_solid(bytes, start) == Some(start));
    assert(bytes.subrange(start, start + value.len() + 2) =~= quoted(value)) by {
        assert forall|i: int| 0 <= i < quoted(value).len() implies bytes.subrange(start, start + value.len() + 2)[i] == quoted(value)[i] by {
            assert(bytes[start + i] == quoted(value)[i]);
        }
    }
}

/// A text behind a key of the outermost object is found wherever the key
/// stands among other members, and whatever follows, unless it is longer than
/// may be.
pub proof fn members_are_found(list: Seq<(Seq<u8>, Seq<u8>)>, wanted: Seq<u8>, value: Seq<u8>, rest: Seq<u8>, limit: int)
    requires
        are_others(list, wanted),
        is_plain(wanted),
        is_plain(value),
    ensures
        ({
            let bytes = seq![123u8] + members(list) + member(wanted, value) + rest;
            top_level_field(bytes, wanted, limit) == if value.len() > limit {
                None
            } else {
                json_string_parsed(quoted(value))
            }
        }),
{
    let bytes = seq![123u8] + members(list) + member(wanted, value) + rest;
    let at = 1 + members(list).len() as int;
    assert(stands_in(bytes, members(list), 1)) by {
        assert forall|i: int| 0 <= i < members(list).len() implies #[trigger] bytes[1 + i] == members(list)[i] by {}
    }
    assert(stands_in(bytes, member(wanted, value), at)) by {
        assert forall|i: int| 0 <= i < member(wanted, value).len() implies #[trigger] bytes[at + i] == member(wanted, value)[i] by {}
    }
    assert(bytes[0] == 123);
    assert(next_solid(bytes, 0) == Some(0int));
    reveal_with_fuel(field_from, 2);
    assert(field_from(bytes, wanted, limit, 0, 0, 0) == field_from(bytes, wanted, limit, 1, 1, 0));
    other_members_are_passed_over(bytes, list, wanted, limit, 1);
    the_member_is_read(bytes, wanted, value, limit, at);
}

/// White space between the tokens of a document is what the format says: a
/// blank, a tab, a line break, a form feed or a carriage return.
pub proof fn blanks_are_few(byte: u8)
    ensures
        is_blank(byte) <==> byte == 0x20 || byte == 0x09 || byte == 0x0a || byte == 0x0c || byte == 0x0d,
{
}

/// A request that is too long is answered under its id, if its kind and its id
/// stand in the part that was kept: an id of up to 4096 bytes, and only of a
/// request.
pub proof fn long_requests_are_known_by_their_id(before: Seq<(Seq<u8>, Seq<u8>)>, between: Seq<(Seq<u8>, Seq<u8>)>, kind: Seq<u8>, id: Seq<u8>, rest: Seq<u8>)
    requires
        are_others(before, kind_key()),
        are_others(before, id_key()),
        are_others(between, id_key()),
        is_plain(kind),
        is_plain(id),
        kind.len() <= 16,
    ensures
        ({
            let frame = seq![123u8] + members(before) + member(kind_key(), kind) + (seq![44u8] + members(between) + member(id_key(), id)
                + rest);
            oversized_request_id(frame) == if json_string_parsed(quoted(kind)) == Some("req"@) && id.len() <= 4096 {
                json_string_parsed(quoted(id))
            } else {
                None
            }
        }),
        kind_key() == seq!['k' as u8, 'i' as u8, 'n' as u8, 'd' as u8],
        id_key() == seq!['i' as u8, 'd' as u8],
{
    let tail = seq![44u8] + members(between) + member(id_key(), id) + rest;
    let frame = seq![123u8] + members(before) + member(kind_key(), kind) + tail;
    members_are_found(before, kind_key(), kind, tail, 16);
    let all = before.push((kind_key(), kind)) + between;
    assert(kind_key().len() == 4 && id_key().len() == 2);
    assert(kind_key() != id_key());
    assert(is_plain(kind_key()));
    assert forall|i: int| 0 <= i < all.len() implies is_plain((#[trigger] all[i]).0) && is_plain(all[i].1) && all[i].0 != id_key() by {
        if i < before.len() {
            assert(all[i] == before[i]);
        } else if i > before.len() {
            assert(all[i] == between[i - before.len() - 1]);
        }
    }
    members_add_up(before.push((kind_key(), kind)), between);
    members_add_up(before, seq![(kind_key(), kind)]);
    assert(before + seq![(kind_key(), kind)] =~= before.push((kind_key(), kind)));
    reveal_with_fuel(members, 2);
    let one = seq![(kind_key(), kind)];
    assert(one.drop_first() =~= Seq::<(Seq<u8>, Seq<u8>)>::empty());
    assert(members(one) =~= member(kind_key(), kind) + seq![44u8]);
    members_are_found(all, id_key(), id, rest, 4096);
    assert(seq![123u8] + members(all) + member(id_key(), id) + rest =~= frame);
}

proof fn members_add_up(first: Seq<(Seq<u8>, Seq<u8>)>, second: Seq<(Seq<u8>, Seq<u8>)>)
    ensures
        members(first + second) == members(first) + members(second),
    decreases first.len(),
{
    if first.len() == 0 {
        assert(first + second =~= second);
        assert(members(first) + members(second) =~= members(second));
    } else {
        let tail = first.drop_first();
        members_add_up(tail, second);
        assert((first + second).drop_first() =~= tail + second);
        assert((first + second)[0] == first[0]);
        assert(members(first + second) =~= members(first) + members(second));
    }
}

// ---------------------------------------------------------------------------
// Members of members, and white space

/// Texts between quotes, each with a colon or a comma behind it.
pub open spec fn texts_with_marks(list: Seq<(Seq<u8>, u8)>) -> Seq<u8>
    decreases list.len(),
{
    if list.len() == 0 {
        Seq::empty()
    } else {
        quoted(list[0].0) + seq![list[0].1] + texts_with_marks(list.drop_first())
    }
}

/// All the texts are plain, and the marks are colons and commas.
pub open spec fn are_texts_with_marks(list: Seq<(Seq<u8>, u8)>) -> bool {
    forall|i: int| 0 <= i < list.len() ==> is_plain((#[trigger] list[i]).0) && (list[i].1 == 58 || list[i].1 == 44)
}

proof fn deeper_texts_are_passed_over(bytes: Seq<u8>, list: Seq<(Seq<u8>, u8)>, wanted: Seq<u8>, limit: int, at: int, objects: int, arrays: int)
    requires
        are_texts_with_marks(list),
        at >= 0,
        stands_in(bytes, texts_with_marks(list), at),
        objects != 1 || arrays != 0,
    ensures
        field_from(bytes, wanted, limit, at, objects, arrays) == field_from(
            bytes,
            wanted,
            limit,
            at + texts_with_marks(list).len(),
            objects,
            arrays,
        ),
    decreases list.len(),
{
    if list.len() > 0 {
        let (text, mark) = list[0];
        let tail = list.drop_first();
        assert(is_plain(text) && (mark == 58 || mark == 44));
        let own = quoted(text) + seq![mark];
        parts_stand_in(bytes, own, texts_with_marks(tail), at);
        parts_stand_in(bytes, quoted(text), seq![mark], at);
        let behind = at + text.len() + 2;
        assert(bytes[behind + 0] == mark) by {
            assert(stands_in(bytes, seq![mark], behind));
        }
        strings_end(bytes, text, at);
        assert(field_from(bytes, wanted, limit, at, objects, arrays) == field_from(bytes, wanted, limit, behind, objects, arrays));
        assert(field_from(bytes, wanted, limit, behind, objects, arrays) == field_from(
            bytes,
            wanted,
            limit,
            behind + 1,
            objects,
            arrays,
        ));
        assert forall|i: int| 0 <= i < tail.len() implies is_plain((#[trigger] tail[i]).0) && (tail[i].1 == 58 || tail[i].1
            == 44) by {
            assert(list[i + 1] == tail[i]);
        }
        assert(behind + 1 == at + own.len());
        deeper_texts_are_passed_over(bytes, tail, wanted, limit, behind + 1, objects, arrays);
        assert(texts_with_marks(list).len() == own.len() + texts_with_marks(tail).len());
    }
}

/// What stands within an object or a list behind another key is passed over,
/// even where it spells the key: only the member of the outermost object
/// counts.
pub proof fn only_outer_members_count(key: Seq<u8>, within: Seq<(Seq<u8>, u8)>, in_list: bool, wanted: Seq<u8>, value: Seq<u8>, rest: Seq<u8>, limit: int)
    requires
        is_plain(key),
        key != wanted,
        are_texts_with_marks(within),
        is_plain(wanted),
        is_plain(value),
    ensures
        ({
            let (open, close) = if in_list { (91u8, 93u8) } else { (123u8, 125u8) };
            let bytes = seq![123u8] + quoted(key) + seq![58u8, open] + texts_with_marks(within) + seq![close, 44u8] + member(wanted, value)
                + rest;
            top_level_field(bytes, wanted, limit) == if value.len() > limit {
                None
            } else {
                json_string_parsed(quoted(value))
            }
        }),
{
    let (open, close) = if in_list { (91u8, 93u8) } else { (123u8, 125u8) };
    let inner = texts_with_marks(within);
    let head = seq![123u8] + quoted(key) + seq![58u8, open];
    let bytes = head + inner + seq![close, 44u8] + member(wanted, value) + rest;
    let colon = key.len() as int + 3;
    let first = colon + 2;
    let end = first + inner.len();
    let at = end + 2;
    assert(head.len() == first);
    assert(stands_in(bytes, quoted(key), 1)) by {
        assert forall|i: int| 0 <= i < quoted(key).len() implies #[trigger] bytes[1 + i] == quoted(key)[i] by {
            assert(head[1 + i] == quoted(key)[i]);
        }
    }
    assert(bytes[0] == 123 && bytes[colon] == 58 && bytes[colon + 1] == open) by {
        assert(head[0] == 123 && head[colon] == 58 && head[colon + 1] == open);
    }
    assert(stands_in(bytes, inner, first)) by {
        assert forall|i: int| 0 <= i < inner.len() implies #[trigger] bytes[first + i] == inner[i] by {}
    }
    assert(bytes[end] == close && bytes[end + 1] == 44);
    assert(stands_in(bytes, member(wanted, value), at)) by {
        assert forall|i: int| 0 <= i < member(wanted, value).len() implies #[trigger] bytes[at + i] == member(wanted, value)[i] by {}
    }
    let objects: int = if in_list { 1 } else { 2 };
    let arrays: int = if in_list { 1 } else { 0 };
    assert(next_solid(bytes, 0) == Some(0int));
    assert(field_from(bytes, wanted, limit, 0, 0, 0) == field_from(bytes, wanted, limit, 1, 1, 0));
    strings_end(bytes, key, 1);
    assert(!is_wanted_key(bytes, 1, colon, wanted, 1, 0));
    assert(field_from(bytes, wanted, limit, 1, 1, 0) == field_from(bytes, wanted, limit, colon, 1, 0));
    assert(field_from(bytes, wanted, limit, colon, 1, 0) == field_from(bytes, wanted, limit, colon + 1, 1, 0));
    assert(field_from(bytes, wanted, limit, colon + 1, 1, 0) == field_from(bytes, wanted, limit, first, objects, arrays));
    deeper_texts_are_passed_over(bytes, within, wanted, limit, first, objects, arrays);
    assert(field_from(bytes, wanted, limit, end, objects, arrays) == field_from(bytes, wanted, limit, end + 1, 1, 0));
    assert(field_from(bytes, wanted, limit, end + 1, 1, 0) == field_from(bytes, wanted, limit, at, 1, 0));
    the_member_is_read(bytes, wanted, value, limit, at);
}

/// Bytes that may stand between the tokens of a document.
pub open spec fn are_blanks(bytes: Seq<u8>) -> bool {
    forall|i: int| 0 <= i < bytes.len() ==> (#[trigger] bytes[i] == 0x20 || bytes[i] == 0x09 || bytes[i] == 0x0a || bytes[i] == 0x0d)
}

proof fn blanks_are_passed_over(bytes: Seq<u8>, blanks: Seq<u8>, at: int, from: int)
    requires
        are_blanks(blanks),
        stands_in(bytes, blanks, at),
        0 <= from <= blanks.len(),
        at + blanks.len() < bytes.len(),
        !is_blank(bytes[at + blanks.len()]),
    ensures
        next_solid(bytes, at + from) == Some(at + blanks.len()),
    decreases blanks.len() - from,
{
    if from < blanks.len() {
        assert(bytes[at + from] == blanks[from]);
        blanks_are_passed_over(bytes, blanks, at, from + 1);
    }
}

proof fn blanks_are_looked_through(bytes: Seq<u8>, blanks: Seq<u8>, at: int, to: int)
    requires
        are_blanks(blanks),
        at > 0,
        stands_in(bytes, blanks, at),
        0 <= to <= blanks.len(),
        !is_blank(bytes[at - 1]),
    ensures
        last_solid(bytes, at + to) == Some(bytes[at - 1]),
    decreases to,
{
    if to > 0 {
        assert(bytes[at + (to - 1)] == blanks[to - 1]);
        blanks_are_looked_through(bytes, blanks, at, to - 1);
    }
}

proof fn blanks_lead_on(bytes: Seq<u8>, blanks: Seq<u8>, wanted: Seq<u8>, limit: int, at: int, from: int, objects: int)
    requires
        are_blanks(blanks),
        stands_in(bytes, blanks, at),
        0 <= from <= blanks.len(),
    ensures
        field_from(bytes, wanted, limit, at + from, objects, 0) == field_from(bytes, wanted, limit, at + blanks.len(), objects, 0),
    decreases blanks.len() - from,
{
    if from < blanks.len() {
        assert(bytes[at + from] == blanks[from]);
        blanks_lead_on(bytes, blanks, wanted, limit, at, from + 1, objects);
    }
}

/// White space before the object, before the key and around the colon changes
/// nothing.
pub proof fn blanks_change_nothing(blanks: Seq<u8>, wanted: Seq<u8>, value: Seq<u8>, rest: Seq<u8>, limit: int)
    requires
        are_blanks(blanks),
        is_plain(wanted),
        is_plain(value),
    ensures
        ({
            let bytes = blanks + seq![123u8] + blanks + quoted(wanted) + blanks + seq![58u8] + blanks + quoted(value) + rest;
            top_level_field(bytes, wanted, limit) == if value.len() > limit {
                None
            } else {
                json_string_parsed(quoted(value))
            }
        }),
{
    let bytes = blanks + seq![123u8] + blanks + quoted(wanted) + blanks + seq![58u8] + blanks + quoted(value) + rest;
    let n = blanks.len() as int;
    let brace = n;
    let key = 2 * n + 1;
    let key_end = key + wanted.len() + 2;
    let colon = key_end + n;
    let start = colon + 1 + n;
    assert(stands_in(bytes, blanks, 0)) by {
        assert forall|i: int| 0 <= i < n implies #[trigger] bytes[0 + i] == blanks[i] by {}
    }
    assert(bytes[brace] == 123);
    assert(stands_in(bytes, blanks, brace + 1)) by {
        assert forall|i: int| 0 <= i < n implies #[trigger] bytes[brace + 1 + i] == blanks[i] by {}
    }
    assert(stands_in(bytes, quoted(wanted), key)) by {
        assert forall|i: int| 0 <= i < quoted(wanted).len() implies #[trigger] bytes[key + i] == quoted(wanted)[i] by {}
    }
    assert(stands_in(bytes, blanks, key_end)) by {
        assert forall|i: int| 0 <= i < n implies #[trigger] bytes[key_end + i] == blanks[i] by {}
    }
    assert(bytes[colon] == 58);
    assert(stands_in(bytes, blanks, colon + 1)) by {
        assert forall|i: int| 0 <= i < n implies #[trigger] bytes[colon + 1 + i] == blanks[i] by {}
    }
    assert(stands_in(bytes, quoted(value), start)) by {
        assert forall|i: int| 0 <= i < quoted(value).len() implies #[trigger] bytes[start + i] == quoted(value)[i] by {}
    }
    strings_end(bytes, wanted, key);
    strings_end(bytes, value, start);
    blanks_are_passed_over(bytes, blanks, 0, 0);
    blanks_lead_on(bytes, blanks, wanted, limit, 0, 0, 0);
    assert(field_from(bytes, wanted, limit, brace, 0, 0) == field_from(bytes, wanted, limit, brace + 1, 1, 0));
    blanks_lead_on(bytes, blanks, wanted, limit, brace + 1, 0, 1);
    blanks_are_looked_through(bytes, blanks, brace + 1, n);
    assert(is_wanted_key(bytes, key, key_end, wanted, 1, 0));
    assert(field_from(bytes, wanted, limit, key, 1, 0) == value_behind(bytes, key_end, limit));
    blanks_are_passed_over(bytes, blanks, key_end, 0);
    blanks_are_passed_over(bytes, blanks, colon + 1, 0);
    assert(bytes.subrange(start, start + value.len() + 2) =~= quoted(value)) by {
        assert forall|i: int| 0 <= i < quoted(value).len() implies bytes.subrange(start, start + value.len() + 2)[i] == quoted(value)[i] by {
            assert(bytes[start + i] == quoted(value)[i]);
        }
    }
}

// ---------------------------------------------------------------------------
// Room for what was read

/// What was taken can be given back, and no more than was taken is given back.
pub proof fn room_is_given_back(used: int, count: int, more: int)
    requires
        0 <= used,
        0 <= count,
        0 <= more,
    ensures
        freed(used + count, count) == used,
        freed(freed(used + count + more, count), more) == freed(used + count + more, count + more),
        freed(used, used + more) == 0,
{
}

/// Bytes are read where both the connection and the daemon have room for them;
/// where they have room for many, they have room for fewer.
pub proof fn room_is_needed_on_both_sides(connection: Counter, global: Counter, count: int, fewer: int, limits: Limits)
    requires
        fewer <= count,
    ensures
        connection.used + count > limits.connection_ingress_bytes ==> !ingress_fits(connection, global, count, limits),
        global.used + count > limits.global_ingress_bytes ==> !ingress_fits(connection, global, count, limits),
        connection.used + count <= limits.connection_ingress_bytes && global.used + count <= limits.global_ingress_bytes
            ==> ingress_fits(connection, global, count, limits) && ingress_fits(connection, global, fewer, limits),
{
}

} // verus!
