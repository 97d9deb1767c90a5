//! Newline-delimited frames: reading them out of chunks of bytes, and finding
//! the id of a request that was too large to keep.

use crate::json::{edits_are_bounded, encode_json, Json, json_bytes, json_string_parsed, JsonView, MAX_NESTING, parse_json_string, plain_within, spells, text_view};
use crate::limits::{Limits, RESPONSE_ID_BYTES};
use crate::text::same_text;
use vstd::prelude::*;
use vstd::slice::slice_subrange;

verus! {

// ---------------------------------------------------------------------------
// Ingress accounting

/// A bounded quantity of its own.
#[derive(Clone, Copy, Debug, PartialEq, Eq, Structural)]
pub struct Counter {
    pub used: usize,
}

/// What is left in use after `count` have been given back.
pub open spec fn freed(used: int, count: int) -> int {
    if used >= count {
        used - count
    } else {
        0
    }
}

impl Counter {
    pub fn new() -> (counter: Counter)
        ensures
            counter.used == 0,
    {
        Counter { used: 0 }
    }

    /// Reserves a quantity if it stays within the limit.
    pub fn try_reserve(&mut self, count: usize, limit: usize) -> (taken: bool)
        ensures
            taken == (old(self).used + count <= limit),
            final(self).used == if taken { old(self).used + count } else { old(self).used as int },
    {
        if count <= limit && self.used <= limit - count {
            self.used = self.used + count;
            true
        } else {
            false
        }
    }

    /// Gives a quantity back.
    pub fn release(&mut self, count: usize)
        ensures
            final(self).used == freed(old(self).used as int, count as int),
    {
        self.used = self.used.saturating_sub(count);
    }
}

/// The bytes that a frame holds of its connection's and the overall ingress.
#[derive(Debug, PartialEq, Eq, Structural)]
pub struct IngressPermit {
    pub bytes: usize,
}

pub open spec fn ingress_fits(connection: Counter, global: Counter, count: int, limits: Limits) -> bool {
    &&& connection.used + count <= limits.connection_ingress_bytes
    &&& global.used + count <= limits.global_ingress_bytes
}

impl IngressPermit {
    pub fn new() -> (permit: IngressPermit)
        ensures
            permit.bytes == 0,
    {
        IngressPermit { bytes: 0 }
    }

    /// Takes more bytes of both quantities, or of neither.
    pub fn try_grow(&mut self, connection: &mut Counter, global: &mut Counter, count: usize, limits: Limits) -> (grown: bool)
        requires
            ingress_fits(*old(connection), *old(global), count as int, limits) ==> old(self).bytes + count <= usize::MAX,
        ensures
            grown == ingress_fits(*old(connection), *old(global), count as int, limits),
            grown ==> final(self).bytes == old(self).bytes + count && final(connection).used == old(connection).used + count
                && final(global).used == old(global).used + count,
            !grown ==> *final(self) == *old(self) && *final(connection) == *old(connection) && *final(global) == *old(global),
    {
        if !connection.try_reserve(count, limits.connection_ingress_bytes) {
            return false;
        }
        if !global.try_reserve(count, limits.global_ingress_bytes) {
            connection.release(count);
            return false;
        }
        self.bytes = self.bytes + count;
        true
    }

    /// Gives the bytes back.
    pub fn release(self, connection: &mut Counter, global: &mut Counter)
        ensures
            final(connection).used == freed(old(connection).used as int, self.bytes as int),
            final(global).used == freed(old(global).used as int, self.bytes as int),
    {
        connection.release(self.bytes);
        global.release(self.bytes);
    }
}

// ---------------------------------------------------------------------------
// Lines

/// What reading a stream of bytes has come to: the complete lines, the line
/// that is still open, and whether that line outgrew the limit.
#[verifier::ext_equal]
pub struct Lines {
    pub frames: Seq<Seq<u8>>,
    pub partial: Seq<u8>,
    pub oversized: bool,
}

/// An open line and nothing before it.
pub open spec fn open_line(partial: Seq<u8>) -> Lines {
    Lines { frames: Seq::empty(), partial, oversized: false }
}

/// One byte more.
pub open spec fn line_byte(lines: Lines, byte: u8, limit: usize) -> Lines {
    if lines.oversized {
        lines
    } else if byte == 10 {
        Lines { frames: lines.frames.push(lines.partial), partial: Seq::empty(), oversized: false }
    } else if lines.partial.len() >= limit {
        Lines { oversized: true, ..lines }
    } else {
        Lines { partial: lines.partial.push(byte), ..lines }
    }
}

/// All of `bytes` more.
pub open spec fn lines_after(lines: Lines, bytes: Seq<u8>, limit: usize) -> Lines
    decreases bytes.len(),
{
    if bytes.len() == 0 {
        lines
    } else {
        line_byte(lines_after(lines, bytes.drop_last(), limit), bytes.last(), limit)
    }
}

/// How a stream is cut into chunks does not matter: reading one chunk after
/// another comes to the same as reading them at once.
pub proof fn chunking_does_not_matter(lines: Lines, first: Seq<u8>, second: Seq<u8>, limit: usize)
    ensures
        lines_after(lines, first + second, limit) == lines_after(lines_after(lines, first, limit), second, limit),
    decreases second.len(),
{
    if second.len() == 0 {
        assert(first + second =~= first);
    } else {
        assert((first + second).drop_last() =~= first + second.drop_last());
        chunking_does_not_matter(lines, first, second.drop_last(), limit);
    }
}

/// Every line that is read is within the limit and holds no line break.
pub proof fn read_lines_are_bounded(bytes: Seq<u8>, limit: usize)
    ensures
        ({
            let lines = lines_after(open_line(Seq::empty()), bytes, limit);
            &&& lines.partial.len() <= limit
            &&& !lines.partial.contains(10u8)
            &&& forall|i: int| 0 <= i < lines.frames.len() ==> (#[trigger] lines.frames[i]).len() <= limit && !lines.frames[i].contains(10u8)
        }),
    decreases bytes.len(),
{
    if bytes.len() > 0 {
        read_lines_are_bounded(bytes.drop_last(), limit);
        let before = lines_after(open_line(Seq::empty()), bytes.drop_last(), limit);
        if !before.oversized && bytes.last() != 10 && before.partial.len() < limit {
            assert forall|i: int| 0 <= i < before.partial.push(bytes.last()).len() implies before.partial.push(bytes.last())[i] != 10 by {
                if i < before.partial.len() {
                    assert(before.partial.contains(before.partial[i]));
                }
            }
        }
    }
}

/// Bytes without a line break extend the open line as long as they fit.
proof fn plain_bytes_extend_the_line(partial: Seq<u8>, bytes: Seq<u8>, limit: usize)
    requires
        partial.len() + bytes.len() <= limit,
        !bytes.contains(10u8),
    ensures
        lines_after(open_line(partial), bytes, limit) == open_line(partial + bytes),
    decreases bytes.len(),
{
    if bytes.len() == 0 {
        assert(partial + bytes =~= partial);
    } else {
        assert(bytes.contains(bytes.last()));
        assert forall|i: int| 0 <= i < bytes.drop_last().len() implies bytes.drop_last()[i] != 10 by {
            assert(bytes.contains(bytes[i]));
        }
        plain_bytes_extend_the_line(partial, bytes.drop_last(), limit);
        assert(partial + bytes =~= (partial + bytes.drop_last()).push(bytes.last()));
    }
}

/// A frame that is written with a line break behind it is read as one frame,
/// the same one.
pub proof fn a_written_line_is_read_back(frame: Seq<u8>, limit: usize)
    requires
        frame.len() <= limit,
        !frame.contains(10u8),
    ensures
        lines_after(open_line(Seq::empty()), frame.push(10u8), limit) == (Lines {
            frames: seq![frame],
            partial: Seq::empty(),
            oversized: false,
        }),
{
    plain_bytes_extend_the_line(Seq::empty(), frame, limit);
    assert(frame.push(10u8).drop_last() =~= frame);
    assert(Seq::<u8>::empty() + frame =~= frame);
    assert(Seq::<Seq<u8>>::empty().push(frame) =~= seq![frame]);
}

/// The place of the first line break, or the number of bytes.
pub open spec fn line_end(bytes: Seq<u8>) -> int
    decreases bytes.len(),
{
    if bytes.len() == 0 || bytes[0] == 10 {
        0
    } else {
        1 + line_end(bytes.drop_first())
    }
}

proof fn line_end_found(bytes: Seq<u8>, at: int)
    requires
        0 <= at <= bytes.len(),
        forall|i: int| 0 <= i < at ==> #[trigger] bytes[i] != 10,
        at < bytes.len() ==> bytes[at] == 10,
    ensures
        line_end(bytes) == at,
    decreases bytes.len(),
{
    if bytes.len() > 0 && at > 0 {
        assert(bytes[0] != 10);
        assert forall|i: int| 0 <= i < at - 1 implies #[trigger] bytes.drop_first()[i] != 10 by {
            assert(bytes.drop_first()[i] == bytes[i + 1]);
        }
        line_end_found(bytes.drop_first(), at - 1);
    }
}

/// What reading the rest of a chunk led to.
#[derive(Debug)]
pub enum ReadStep {
    /// The chunk is used up and the line is still open.
    NeedMore,
    /// A line is complete; the next one starts after `consumed` bytes.
    Frame { frame: Vec<u8>, ingress: IngressPermit, consumed: usize },
    /// The line outgrew the limit.
    Oversized { request_id: Option<String> },
    /// The bytes would exceed the connection's or the overall ingress.
    IngressFull,
    /// The connection has too many requests in flight.
    InFlightFull,
}

/// Cuts the bytes of a connection into frames.
pub struct FrameReader {
    pub limits: Limits,
    pub frame: Vec<u8>,
    pub ingress: IngressPermit,
}

impl FrameReader {
    /// The open line fits the limit and its bytes are accounted for.
    pub open spec fn wf(&self) -> bool {
        &&& self.frame@.len() <= self.limits.frame_bytes
        &&& self.ingress.bytes == self.frame@.len()
    }

    pub fn new(limits: Limits) -> (reader: FrameReader)
        ensures
            reader.wf(),
            reader.limits == limits,
            reader.frame@ == Seq::<u8>::empty(),
    {
        FrameReader { limits, frame: Vec::new(), ingress: IngressPermit::new() }
    }

    /// How many of `rest`'s bytes the open line takes up, at most.
    pub open spec fn kept(&self, rest: Seq<u8>) -> int {
        if self.frame@.len() + line_end(rest) > self.limits.frame_bytes {
            self.limits.frame_bytes - self.frame@.len()
        } else {
            line_end(rest)
        }
    }

    pub open spec fn outgrown(&self, rest: Seq<u8>) -> bool {
        self.frame@.len() + line_end(rest) > self.limits.frame_bytes
    }

    /// Gives back what the open line holds: the connection is read no more.
    pub fn close(self, connection: &mut Counter, global: &mut Counter)
        requires
            self.wf(),
        ensures
            final(connection).used == freed(old(connection).used as int, self.frame@.len() as int),
            final(global).used == freed(old(global).used as int, self.frame@.len() as int),
    {
        self.ingress.release(connection, global);
    }

    /// Reads up to the next line break of `rest`, or all of it.
    pub fn step(&mut self, rest: &[u8], connection: &mut Counter, global: &mut Counter, pending: &mut Counter) -> (step: ReadStep)
        requires
            old(self).wf(),
            rest@.len() > 0,
        ensures
            final(self).wf(),
            final(self).limits == old(self).limits,
            !ingress_fits(*old(connection), *old(global), old(self).kept(rest@), old(self).limits) ==> {
                &&& step is IngressFull
                &&& final(self).frame@ == old(self).frame@
                &&& *final(connection) == *old(connection)
                &&& *final(global) == *old(global)
                &&& *final(pending) == *old(pending)
            },
            ingress_fits(*old(connection), *old(global), old(self).kept(rest@), old(self).limits) ==> {
                &&& !(step is InFlightFull) ==> {
                    &&& final(connection).used == old(connection).used + old(self).kept(rest@)
                    &&& final(global).used == old(global).used + old(self).kept(rest@)
                }
                &&& old(self).outgrown(rest@) ==> {
                    &&& step matches ReadStep::Oversized { request_id }
                    &&& text_view(request_id) == oversized_request_id(final(self).frame@)
                    &&& final(self).frame@ == old(self).frame@ + rest@.take(old(self).kept(rest@))
                    &&& *final(pending) == *old(pending)
                    &&& lines_after(open_line(old(self).frame@), rest@.take(line_end(rest@)), old(self).limits.frame_bytes) == (Lines {
                        frames: Seq::empty(),
                        partial: final(self).frame@,
                        oversized: true,
                    })
                }
                &&& !old(self).outgrown(rest@) && line_end(rest@) == rest@.len() ==> {
                    &&& step is NeedMore
                    &&& final(self).frame@ == old(self).frame@ + rest@
                    &&& *final(pending) == *old(pending)
                    &&& lines_after(open_line(old(self).frame@), rest@, old(self).limits.frame_bytes) == open_line(final(self).frame@)
                }
                &&& !old(self).outgrown(rest@) && line_end(rest@) < rest@.len() ==> {
                    &&& final(self).frame@ == Seq::<u8>::empty()
                    &&& final(pending).used == if old(pending).used < old(self).limits.in_flight { old(pending).used + 1 } else { old(pending).used as int }
                    &&& old(pending).used >= old(self).limits.in_flight ==> {
                        &&& step is InFlightFull
                        &&& final(connection).used == freed(old(connection).used as int, old(self).frame@.len() as int)
                        &&& final(global).used == freed(old(global).used as int, old(self).frame@.len() as int)
                    }
                    &&& old(pending).used < old(self).limits.in_flight ==> {
                        &&& step matches ReadStep::Frame { frame, ingress, consumed }
                        &&& frame@ == old(self).frame@ + rest@.take(line_end(rest@))
                        &&& ingress.bytes == frame@.len()
                        &&& consumed == line_end(rest@) + 1
                        &&& lines_after(open_line(old(self).frame@), rest@.take(consumed as int), old(self).limits.frame_bytes) == (Lines {
                            frames: seq![frame@],
                            partial: Seq::empty(),
                            oversized: false,
                        })
                    }
                }
            },
    {
        let ghost start = self.frame@;
        let ghost limit = self.limits.frame_bytes;
        let mut end: usize = 0;
        while end < rest.len() && rest[end] != 10
            invariant
                end <= rest@.len(),
                forall|i: int| 0 <= i < end ==> #[trigger] rest@[i] != 10,
            decreases rest@.len() - end,
        {
            end += 1;
        }
        proof {
            line_end_found(rest@, end as int);
        }
        let room: usize = self.limits.frame_bytes - self.frame.len();
        if end > room {
            if !self.ingress.try_grow(connection, global, room, self.limits) {
                return ReadStep::IngressFull;
            }
            let kept = slice_subrange(rest, 0, room);
            self.frame.extend_from_slice(kept);
            proof {
                let body = rest@.take(end as int);
                assert(kept@ =~= rest@.take(room as int));
                let head = rest@.take(room as int);
                assert(!head.contains(10u8));
                plain_bytes_extend_the_line(start, head, limit);
                overflow_is_final(start + head, rest@.subrange(room as int, end as int), limit);
                chunking_does_not_matter(open_line(start), head, rest@.subrange(room as int, end as int), limit);
                assert(body =~= head + rest@.subrange(room as int, end as int));
            }
            let request_id = find_oversized_request_id(self.frame.as_slice());
            return ReadStep::Oversized { request_id };
        }
        if !self.ingress.try_grow(connection, global, end, self.limits) {
            return ReadStep::IngressFull;
        }
        let piece = slice_subrange(rest, 0, end);
        self.frame.extend_from_slice(piece);
        proof {
            assert(piece@ =~= rest@.take(end as int));
            assert(!rest@.take(end as int).contains(10u8));
            plain_bytes_extend_the_line(start, rest@.take(end as int), limit);
        }
        if end < rest.len() {
            let mut frame: Vec<u8> = Vec::new();
            std::mem::swap(&mut frame, &mut self.frame);
            let ingress = IngressPermit { bytes: self.ingress.bytes };
            self.ingress = IngressPermit::new();
            if !pending.try_reserve(1, self.limits.in_flight) {
                ingress.release(connection, global);
                return ReadStep::InFlightFull;
            }
            proof {
                assert(rest@.take(end + 1).drop_last() =~= rest@.take(end as int));
                assert(rest@.take(end + 1).last() == 10);
                assert(frame@ =~= start + rest@.take(end as int));
                assert(Seq::<Seq<u8>>::empty().push(frame@) =~= seq![frame@]);
            }
            ReadStep::Frame { frame, ingress, consumed: end + 1 }
        } else {
            assert(rest@.take(end as int) =~= rest@);
            ReadStep::NeedMore
        }
    }
}

/// A full line and one byte more is oversized, whatever follows.
proof fn overflow_is_final(partial: Seq<u8>, bytes: Seq<u8>, limit: usize)
    requires
        partial.len() == limit,
        bytes.len() > 0,
        !bytes.contains(10u8),
    ensures
        lines_after(open_line(partial), bytes, limit) == (Lines { frames: Seq::empty(), partial, oversized: true }),
    decreases bytes.len(),
{
    assert(bytes.contains(bytes.last()));
    if bytes.len() == 1 {
        assert(bytes.drop_last() =~= Seq::<u8>::empty());
        assert(lines_after(open_line(partial), bytes.drop_last(), limit) == open_line(partial));
    } else {
        assert forall|i: int| 0 <= i < bytes.drop_last().len() implies bytes.drop_last()[i] != 10 by {
            assert(bytes.contains(bytes[i]));
        }
        overflow_is_final(partial, bytes.drop_last(), limit);
    }
}

// ---------------------------------------------------------------------------
// Finding a string field in the beginning of an object

/// White space between the tokens of a document.
pub open spec fn is_blank(byte: u8) -> bool {
    byte == 32 || byte == 9 || byte == 10 || byte == 12 || byte == 13
}

/// The place of the first byte from `from` on that is not blank.
pub open spec fn next_solid(bytes: Seq<u8>, from: int) -> Option<int>
    decreases bytes.len() - from,
{
    if from < 0 || from >= bytes.len() {
        None
    } else if is_blank(bytes[from]) {
        next_solid(bytes, from + 1)
    } else {
        Some(from)
    }
}

/// The last byte before `to` that is not blank.
pub open spec fn last_solid(bytes: Seq<u8>, to: int) -> Option<u8>
    decreases to,
{
    if to <= 0 || to > bytes.len() {
        None
    } else if is_blank(bytes[to - 1]) {
        last_solid(bytes, to - 1)
    } else {
        Some(bytes[to - 1])
    }
}

/// The place behind the quote that closes a string, from inside it.
pub open spec fn closing_quote(bytes: Seq<u8>, at: int, escaped: bool) -> Option<int>
    decreases bytes.len() - at,
{
    if at < 0 || at >= bytes.len() {
        None
    } else if escaped {
        closing_quote(bytes, at + 1, false)
    } else if bytes[at] == 92 {
        closing_quote(bytes, at + 1, true)
    } else if bytes[at] == 34 {
        Some(at + 1)
    } else {
        closing_quote(bytes, at + 1, false)
    }
}

/// The place behind the string that starts at `start`.
pub open spec fn end_of_string(bytes: Seq<u8>, start: int) -> Option<int> {
    if 0 <= start < bytes.len() && bytes[start] == 34 {
        closing_quote(bytes, start + 1, false)
    } else {
        None
    }
}

proof fn closing_quote_is_ahead(bytes: Seq<u8>, at: int, escaped: bool)
    ensures
        closing_quote(bytes, at, escaped) matches Some(end) ==> at < end <= bytes.len(),
    decreases bytes.len() - at,
{
    if 0 <= at < bytes.len() {
        if escaped {
            closing_quote_is_ahead(bytes, at + 1, false);
        } else if bytes[at] == 92 {
            closing_quote_is_ahead(bytes, at + 1, true);
        } else if bytes[at] != 34 {
            closing_quote_is_ahead(bytes, at + 1, false);
        }
    }
}

/// How many backslashes stand right before `at`, not counting any before
/// `start`.
pub open spec fn backslashes_before(bytes: Seq<u8>, start: int, at: int) -> nat
    decreases at - start,
{
    if at <= start || bytes[at - 1] != 92 {
        0
    } else {
        backslashes_before(bytes, start, at - 1) + 1
    }
}

/// The quote at `at` is not escaped: an even number of backslashes stands right
/// before it.
pub open spec fn is_free_quote(bytes: Seq<u8>, start: int, at: int) -> bool {
    start <= at < bytes.len() && bytes[at] == 34 && backslashes_before(bytes, start, at) % 2 == 0
}

proof fn quotes_from(bytes: Seq<u8>, start: int, at: int)
    requires
        0 <= start <= at,
        forall|q: int| start <= q < at ==> !#[trigger] is_free_quote(bytes, start, q),
    ensures
        ({
            let escaped = backslashes_before(bytes, start, at) % 2 == 1;
            match closing_quote(bytes, at, escaped) {
                Some(end) => is_free_quote(bytes, start, end - 1) && (forall|q: int|
                    start <= q < end - 1 ==> !#[trigger] is_free_quote(bytes, start, q)),
                None => forall|q: int| !#[trigger] is_free_quote(bytes, start, q),
            }
        }),
    decreases bytes.len() - at,
{
    if at < bytes.len() {
        if !is_free_quote(bytes, start, at) {
            assert(backslashes_before(bytes, start, at + 1) == if bytes[at] == 92 {
                backslashes_before(bytes, start, at) + 1
            } else {
                0
            });
            quotes_from(bytes, start, at + 1);
        }
    }
}

/// The string that begins at `start` ends behind its first quote with an even
/// number of backslashes right before it, and is open if it has none.
pub proof fn strings_end_at_their_first_free_quote(bytes: Seq<u8>, start: int)
    requires
        0 <= start < bytes.len(),
        bytes[start] == 34,
    ensures
        match end_of_string(bytes, start) {
            Some(end) => is_free_quote(bytes, start + 1, end - 1) && (forall|q: int|
                start < q < end - 1 ==> !#[trigger] is_free_quote(bytes, start + 1, q)),
            None => forall|q: int| !#[trigger] is_free_quote(bytes, start + 1, q),
        },
{
    quotes_from(bytes, start + 1, start + 1);
}

/// The text of the string value behind a key that ends at `end`, if it is a
/// string of at most `limit` bytes.
pub open spec fn value_behind(bytes: Seq<u8>, end: int, limit: int) -> Option<Seq<char>> {
    match next_solid(bytes, end) {
        None => None,
        Some(colon) => if bytes[colon] != 58 {
            None
        } else {
            match next_solid(bytes, colon + 1) {
                None => None,
                Some(value) => match end_of_string(bytes, value) {
                    None => None,
                    Some(value_end) => if value_end - (value + 2) > limit {
                        None
                    } else {
                        json_string_parsed(bytes.subrange(value, value_end))
                    },
                },
            }
        },
    }
}

/// The string at `index` is the key `wanted` of the outermost object.
pub open spec fn is_wanted_key(bytes: Seq<u8>, index: int, end: int, wanted: Seq<u8>, objects: int, arrays: int) -> bool {
    &&& objects == 1
    &&& arrays == 0
    &&& (last_solid(bytes, index) == Some(123u8) || last_solid(bytes, index) == Some(44u8))
    &&& bytes.subrange(index + 1, end - 1) == wanted
}

/// Looks for the key from `index` on, inside that many objects and arrays.
pub open spec fn field_from(bytes: Seq<u8>, wanted: Seq<u8>, limit: int, index: int, objects: int, arrays: int) -> Option<Seq<char>>
    decreases bytes.len() - index,
{
    if index < 0 || index >= bytes.len() {
        None
    } else if bytes[index] == 34 {
        match end_of_string(bytes, index) {
            None => None,
            Some(end) => if is_wanted_key(bytes, index, end, wanted, objects, arrays) {
                value_behind(bytes, end, limit)
            } else if index < end <= bytes.len() {
                field_from(bytes, wanted, limit, end, objects, arrays)
            } else {
                None
            },
        }
    } else if bytes[index] == 123 {
        field_from(bytes, wanted, limit, index + 1, objects + 1, arrays)
    } else if bytes[index] == 125 {
        field_from(bytes, wanted, limit, index + 1, if objects > 0 { objects - 1 } else { 0 }, arrays)
    } else if bytes[index] == 91 {
        field_from(bytes, wanted, limit, index + 1, objects, arrays + 1)
    } else if bytes[index] == 93 {
        field_from(bytes, wanted, limit, index + 1, objects, if arrays > 0 { arrays - 1 } else { 0 })
    } else {
        field_from(bytes, wanted, limit, index + 1, objects, arrays)
    }
}

/// The string field `wanted` of the object that `bytes` begin with.
pub open spec fn top_level_field(bytes: Seq<u8>, wanted: Seq<u8>, limit: int) -> Option<Seq<char>> {
    match next_solid(bytes, 0) {
        Some(first) => if bytes[first] == 123 {
            field_from(bytes, wanted, limit, 0, 0, 0)
        } else {
            None
        },
        None => None,
    }
}

/// What is found is the value behind a key of that name in the bytes.
pub proof fn found_field_has_the_wanted_name(bytes: Seq<u8>, wanted: Seq<u8>, limit: int, index: int, objects: int, arrays: int)
    requires
        0 <= index,
        0 <= objects,
        0 <= arrays,
    ensures
        field_from(bytes, wanted, limit, index, objects, arrays) matches Some(text) ==> exists|at: int, end: int|
            #![trigger bytes.subrange(at + 1, end - 1)]
            index <= at < end <= bytes.len() && bytes.subrange(at + 1, end - 1) == wanted && end_of_string(bytes, at) == Some(end)
                && value_behind(bytes, end, limit) == Some(text),
    decreases bytes.len() - index,
{
    if index < bytes.len() {
        if bytes[index] == 34 {
            closing_quote_is_ahead(bytes, index + 1, false);
            match end_of_string(bytes, index) {
                None => {},
                Some(end) => {
                    if is_wanted_key(bytes, index, end, wanted, objects, arrays) {
                        assert(bytes.subrange(index + 1, end - 1) == wanted);
                    } else {
                        found_field_has_the_wanted_name(bytes, wanted, limit, end, objects, arrays);
                    }
                },
            }
        } else if bytes[index] == 123 {
            found_field_has_the_wanted_name(bytes, wanted, limit, index + 1, objects + 1, arrays);
        } else if bytes[index] == 125 {
            found_field_has_the_wanted_name(bytes, wanted, limit, index + 1, if objects > 0 { objects - 1 } else { 0 }, arrays);
        } else if bytes[index] == 91 {
            found_field_has_the_wanted_name(bytes, wanted, limit, index + 1, objects, arrays + 1);
        } else if bytes[index] == 93 {
            found_field_has_the_wanted_name(bytes, wanted, limit, index + 1, objects, if arrays > 0 { arrays - 1 } else { 0 });
        } else {
            found_field_has_the_wanted_name(bytes, wanted, limit, index + 1, objects, arrays);
        }
    }
}

fn blank(byte: u8) -> (r: bool)
    ensures
        r == is_blank(byte),
{
    byte == 32 || byte == 9 || byte == 10 || byte == 12 || byte == 13
}

fn find_solid(bytes: &[u8], from: usize) -> (at: Option<usize>)
    ensures
        at matches Some(i) ==> next_solid(bytes@, from as int) == Some(i as int) && from <= i < bytes@.len(),
        at is None ==> next_solid(bytes@, from as int) is None,
{
    let mut i: usize = from;
    while i < bytes.len() && blank(bytes[i])
        invariant
            from <= i,
            next_solid(bytes@, from as int) == next_solid(bytes@, i as int),
        decreases bytes@.len() - i,
    {
        i += 1;
    }
    if i < bytes.len() {
        Some(i)
    } else {
        None
    }
}

fn solid_before(bytes: &[u8], to: usize) -> (byte: Option<u8>)
    requires
        to <= bytes@.len(),
    ensures
        byte == last_solid(bytes@, to as int),
{
    let mut i: usize = to;
    while i > 0 && blank(bytes[i - 1])
        invariant
            i <= to <= bytes@.len(),
            last_solid(bytes@, to as int) == last_solid(bytes@, i as int),
        decreases i,
    {
        i -= 1;
    }
    if i > 0 {
        Some(bytes[i - 1])
    } else {
        None
    }
}

/// The place behind the string that starts at `start`.
pub fn string_end(bytes: &[u8], start: usize) -> (end: Option<usize>)
    ensures
        end matches Some(i) ==> end_of_string(bytes@, start as int) == Some(i as int) && start + 2 <= i <= bytes@.len(),
        end is None ==> end_of_string(bytes@, start as int) is None,
{
    if start >= bytes.len() || bytes[start] != 34 {
        return None;
    }
    let mut escaped = false;
    let mut at: usize = start + 1;
    while at < bytes.len()
        invariant
            start < at <= bytes@.len(),
            end_of_string(bytes@, start as int) == closing_quote(bytes@, at as int, escaped),
        decreases bytes@.len() - at,
    {
        let byte = bytes[at];
        if escaped {
            escaped = false;
        } else if byte == 92 {
            escaped = true;
        } else if byte == 34 {
            return Some(at + 1);
        }
        at += 1;
    }
    None
}

fn same_bytes(a: &[u8], b: &[u8]) -> (same: bool)
    ensures
        same == (a@ == b@),
{
    if a.len() != b.len() {
        return false;
    }
    let mut i: usize = 0;
    while i < a.len()
        invariant
            i <= a@.len() == b@.len(),
            forall|j: int| 0 <= j < i ==> a@[j] == b@[j],
        decreases a@.len() - i,
    {
        if a[i] != b[i] {
            return false;
        }
        i += 1;
    }
    assert(a@ =~= b@);
    true
}

fn read_value_behind(bytes: &[u8], end: usize, limit: usize) -> (text: Option<String>)
    ensures
        text_view(text) == value_behind(bytes@, end as int, limit as int),
{
    let colon: usize = match find_solid(bytes, end) {
        Some(at) => at,
        None => {
            return None;
        },
    };
    if bytes[colon] != 58 {
        return None;
    }
    let value: usize = match find_solid(bytes, colon + 1) {
        Some(at) => at,
        None => {
            return None;
        },
    };
    let value_end: usize = match string_end(bytes, value) {
        Some(at) => at,
        None => {
            return None;
        },
    };
    if value_end - (value + 2) > limit {
        return None;
    }
    parse_json_string(slice_subrange(bytes, value, value_end))
}

/// The string field `wanted` of the outermost object in `bytes`, which may end
/// anywhere.
pub fn top_level_string_field(bytes: &[u8], wanted: &[u8], limit: usize) -> (text: Option<String>)
    ensures
        text_view(text) == top_level_field(bytes@, wanted@, limit as int),
{
    match find_solid(bytes, 0) {
        Some(first) => {
            if bytes[first] != 123 {
                return None;
            }
        },
        None => {
            return None;
        },
    }
    let mut objects: usize = 0;
    let mut arrays: usize = 0;
    let mut index: usize = 0;
    while index < bytes.len()
        invariant
            index <= bytes@.len(),
            objects <= index,
            arrays <= index,
            top_level_field(bytes@, wanted@, limit as int) == field_from(
                bytes@,
                wanted@,
                limit as int,
                index as int,
                objects as int,
                arrays as int,
            ),
        decreases bytes@.len() - index,
    {
        let byte = bytes[index];
        if byte == 34 {
            let end: usize = match string_end(bytes, index) {
                Some(at) => at,
                None => {
                    return None;
                },
            };
            let previous = solid_before(bytes, index);
            let follows = match previous {
                Some(solid) => solid == 123 || solid == 44,
                None => false,
            };
            if objects == 1 && arrays == 0 && follows && same_bytes(slice_subrange(bytes, index + 1, end - 1), wanted) {
                return read_value_behind(bytes, end, limit);
            }
            index = end;
        } else {
            if byte == 123 {
                objects += 1;
            } else if byte == 125 {
                objects = objects.saturating_sub(1);
            } else if byte == 91 {
                arrays += 1;
            } else if byte == 93 {
                arrays = arrays.saturating_sub(1);
            }
            index += 1;
        }
    }
    None
}

/// The bytes of the field names that matter here.
pub open spec fn kind_key() -> Seq<u8> {
    seq![107u8, 105u8, 110u8, 100u8]
}

pub open spec fn id_key() -> Seq<u8> {
    seq![105u8, 100u8]
}

/// The id to answer an oversized frame under: that of a request, if it stands
/// in the part that was kept.
pub open spec fn oversized_request_id(frame: Seq<u8>) -> Option<Seq<char>> {
    if top_level_field(frame, kind_key(), 16) == Some("req"@) {
        top_level_field(frame, id_key(), RESPONSE_ID_BYTES as int)
    } else {
        None
    }
}

/// Finds the id to answer an oversized frame under.
pub fn find_oversized_request_id(frame: &[u8]) -> (request_id: Option<String>)
    ensures
        text_view(request_id) == oversized_request_id(frame@),
{
    let kind: Vec<u8> = vec![107u8, 105u8, 110u8, 100u8];
    assert(kind@ =~= kind_key());
    let is_request = match top_level_string_field(frame, kind.as_slice(), 16) {
        Some(text) => same_text(text.as_str(), "req"),
        None => false,
    };
    if is_request {
        let id: Vec<u8> = vec![105u8, 100u8];
        assert(id@ =~= id_key());
        top_level_string_field(frame, id.as_slice(), RESPONSE_ID_BYTES)
    } else {
        None
    }
}

// ---------------------------------------------------------------------------
// Writing

/// The bytes spell the document on one line, and whoever reads them gets the
/// document back if it is made of whole numbers and does not nest too deep.
pub open spec fn is_spelling(bytes: Seq<u8>, document: JsonView) -> bool {
    &&& bytes == json_bytes(document)
    &&& !bytes.contains(10u8)
    &&& plain_within(document, MAX_NESTING as nat) ==> spells(bytes, document)
    &&& edits_are_bounded(bytes, document)
}

/// The spelling of a document, if it is within the limit.
pub fn serialize_bounded(frame: &Json, limit: usize) -> (bytes: Option<Vec<u8>>)
    ensures
        bytes is Some == (json_bytes(frame@).len() <= limit),
        bytes matches Some(list) ==> is_spelling(list@, frame@),
{
    let bytes = encode_json(frame);
    if bytes.len() <= limit {
        Some(bytes)
    } else {
        None
    }
}

} // verus!
