//! A snapshot that is kept can be served, whatever a client calls its request.

use crate::envelope::{event_message, result_message};
use crate::framing::is_spelling;
use crate::json::{edited, json_bytes, most_bytes, shown_as_is, Edit, JsonView};
use crate::limits::{MAX_SERIALIZED_RESPONSE_ID_BYTES, RESPONSE_ID_BYTES};
use crate::parse::{decimals_read_back, digits_read_back, is_digit};
use crate::project::{RecordView, SnapshotView};
use crate::project_json::{projection_json, texts_json};
use crate::protocol::ConnectionId;
use crate::server::model::{subscription_id, ServerView};
use crate::server::snapshots::{longest_subscription_id, replaced_payload, response_room, subscription_result};
use crate::state::{projected, stale_marks};
use crate::text::decimal_text;
use vstd::prelude::*;
use vstd::utf8::{encode_utf8, is_ascii_chars, is_ascii_chars_encode_utf8};

verus! {

/// The frames that carry a snapshot to one client are within the limit.
pub open spec fn frames_fit(record: RecordView, snapshot: SnapshotView, limit: usize, id: Seq<char>, degraded: Seq<Seq<char>>, subscription: Seq<char>) -> bool {
    let projection = projected(record, snapshot, degraded);
    &&& json_bytes(result_message(id, projection_json(projection))).len() <= limit
    &&& json_bytes(result_message(id, subscription_result(subscription, projection))).len() <= limit
    &&& json_bytes(event_message("snapshot.replaced"@, replaced_payload(record.id, projection))).len() <= limit
}

/// A snapshot can be sent in every frame that may carry it: under every id that
/// is not too long, up to date or stale, and for every subscription.
pub open spec fn can_be_served(record: RecordView, snapshot: SnapshotView, limit: usize) -> bool {
    forall|id: Seq<char>, degraded: Seq<Seq<char>>, connection: ConnectionId, ordinal: u64|
        encode_utf8(id).len() <= RESPONSE_ID_BYTES && (degraded.len() == 0 || degraded == stale_marks()) && connection
            <= usize::MAX ==> #[trigger] frames_fit(record, snapshot, limit, id, degraded, subscription_id(connection, ordinal))
}

// ---------------------------------------------------------------------------
// Subscription ids

proof fn decimals_grow(a: nat, b: nat)
    requires
        a <= b,
    ensures
        decimal_text(a).len() <= decimal_text(b).len(),
    decreases b,
{
    if b >= 10 {
        digits_read_back((b % 10) as int);
        if a >= 10 {
            digits_read_back((a % 10) as int);
            decimals_grow(a / 10, b / 10);
        } else {
            digits_read_back(a as int);
        }
    } else {
        digits_read_back(a as int);
        digits_read_back(b as int);
    }
}

proof fn decimals_are_shown(number: nat)
    ensures
        shown_as_is(decimal_text(number)),
{
    decimals_read_back(number);
    let text = decimal_text(number);
    assert forall|i: int| 0 <= i < text.len() implies ' ' <= #[trigger] text[i] <= '~' && text[i] != '"' && text[i] != '\\' by {
        assert(is_digit(text[i]));
    }
}

/// A text of such characters takes one byte for each.
proof fn shown_text_is_ascii(text: Seq<char>)
    requires
        shown_as_is(text),
    ensures
        encode_utf8(text).len() == text.len(),
{
    assert(is_ascii_chars(text));
    is_ascii_chars_encode_utf8(text);
}

proof fn hyphenated_is_shown(first: nat, second: nat)
    ensures
        shown_as_is("s-"@ + decimal_text(first) + "-"@ + decimal_text(second)),
        ("s-"@ + decimal_text(first) + "-"@ + decimal_text(second)).len() == 3 + decimal_text(first).len() + decimal_text(
            second,
        ).len(),
{
    reveal_strlit("s-");
    reveal_strlit("-");
    decimals_are_shown(first);
    decimals_are_shown(second);
    let a = decimal_text(first);
    let b = decimal_text(second);
    let text = "s-"@ + a + "-"@ + b;
    assert forall|i: int| 0 <= i < text.len() implies ' ' <= #[trigger] text[i] <= '~' && text[i] != '"' && text[i] != '\\' by {
        if 2 <= i < 2 + a.len() {
            assert(text[i] == a[i - 2]);
        } else if i >= 3 + a.len() {
            assert(text[i] == b[i - 3 - a.len()]);
        }
    }
}

/// No subscription's id takes more room than the longest.
proof fn subscription_ids_are_bounded(connection: ConnectionId, ordinal: u64)
    requires
        connection <= usize::MAX,
    ensures
        most_bytes(subscription_id(connection, ordinal)) <= encode_utf8(longest_subscription_id()).len(),
{
    hyphenated_is_shown(connection as nat, ordinal as nat);
    hyphenated_is_shown(usize::MAX as nat, u64::MAX as nat);
    shown_text_is_ascii(subscription_id(connection, ordinal));
    shown_text_is_ascii(longest_subscription_id());
    decimals_grow(connection as nat, usize::MAX as nat);
    decimals_grow(ordinal as nat, u64::MAX as nat);
}

// ---------------------------------------------------------------------------
// Frames

/// The change from a stale projection to one with these marks.
spec fn marks_edit(degraded: Seq<Seq<char>>) -> Edit {
    if degraded.len() == 0 {
        Edit::Fields("degraded"@, Box::new(Edit::Emptied), "path"@, Box::new(Edit::Same))
    } else {
        Edit::Same
    }
}

proof fn marks_change_no_more(record: RecordView, snapshot: SnapshotView, degraded: Seq<Seq<char>>)
    requires
        degraded.len() == 0 || degraded == stale_marks(),
    ensures
        edited(projection_json(projected(record, snapshot, stale_marks())), marks_edit(degraded)) == Some(
            (projection_json(projected(record, snapshot, degraded)), 0int),
        ),
{
    if degraded.len() == 0 {
        reveal_with_fuel(edited, 2);
        reveal_strlit("degraded");
        reveal_strlit("path");
        reveal_strlit("projectId");
        reveal_strlit("schemaVersion");
        reveal_strlit("generatedAt");
        reveal_strlit("mode");
        reveal_strlit("tasks");
        reveal_strlit("maxParallelTasks");
        assert("degraded"@.len() == 8 && "path"@.len() == 4 && "projectId"@.len() == 9 && "schemaVersion"@.len() == 13);
        assert("generatedAt"@.len() == 11 && "mode"@.len() == 4 && "tasks"@.len() == 5 && "maxParallelTasks"@.len() == 16);
        assert("path"@[0] == 'p' && "mode"@[0] == 'm');
        let before = projection_json(projected(record, snapshot, stale_marks()))->Object_0;
        let after = projection_json(projected(record, snapshot, degraded))->Object_0;
        assert(texts_json(degraded) == JsonView::List(Seq::empty())) by {
            assert(texts_json(degraded)->List_0 =~= Seq::empty());
        }
        assert(before["degraded"@] == texts_json(stale_marks()));
        assert(after =~= before.insert("degraded"@, JsonView::List(Seq::empty())).insert("path"@, before["path"@]));
    }
}

proof fn results_are_edited(id: Seq<char>, before: JsonView, edit: Edit, after: JsonView, growth: int)
    requires
        edited(before, edit) == Some((after, growth)),
    ensures
        edited(
            result_message(""@, before),
            Edit::Fields("id"@, Box::new(Edit::Text(id)), "result"@, Box::new(edit)),
        ) == Some((result_message(id, after), most_bytes(id) + growth)),
{
    reveal_strlit("");
    reveal_strlit("v");
    reveal_strlit("kind");
    reveal_strlit("id");
    reveal_strlit("ok");
    reveal_strlit("result");
    assert("v"@.len() == 1 && "kind"@.len() == 4 && "id"@.len() == 2 && "ok"@.len() == 2 && "result"@.len() == 6);
    assert("id"@[0] == 'i' && "ok"@[0] == 'o');
    assert(""@ =~= Seq::empty());
    assert(encode_utf8(""@).len() == 0);
    assert(edited(JsonView::Text(""@), Edit::Text(id)) == Some((JsonView::Text(id), most_bytes(id))));
    let fields = result_message(""@, before)->Object_0;
    let changed = result_message(id, after)->Object_0;
    assert(fields["id"@] == JsonView::Text(""@));
    assert(fields["result"@] == before);
    assert(changed =~= fields.insert("id"@, JsonView::Text(id)).insert("result"@, after));
}

proof fn subscriptions_are_edited(longest: Seq<char>, subscription: Seq<char>, record: RecordView, snapshot: SnapshotView, degraded: Seq<Seq<char>>)
    requires
        degraded.len() == 0 || degraded == stale_marks(),
    ensures
        edited(
            subscription_result(longest, projected(record, snapshot, stale_marks())),
            Edit::Fields(
                "subscriptionId"@,
                Box::new(Edit::Text(subscription)),
                "snapshot"@,
                Box::new(marks_edit(degraded)),
            ),
        ) == Some(
            (
                subscription_result(subscription, projected(record, snapshot, degraded)),
                most_bytes(subscription) - encode_utf8(longest).len(),
            ),
        ),
{
    marks_change_no_more(record, snapshot, degraded);
    reveal_strlit("subscriptionId");
    reveal_strlit("snapshot");
    assert("subscriptionId"@.len() == 14 && "snapshot"@.len() == 8);
    let fields = subscription_result(longest, projected(record, snapshot, stale_marks()))->Object_0;
    let changed = subscription_result(subscription, projected(record, snapshot, degraded))->Object_0;
    assert(edited(JsonView::Text(longest), Edit::Text(subscription)) == Some(
        (JsonView::Text(subscription), most_bytes(subscription) - encode_utf8(longest).len()),
    ));
    assert(fields["subscriptionId"@] == JsonView::Text(longest));
    assert(changed =~= fields.insert("subscriptionId"@, JsonView::Text(subscription)).insert(
        "snapshot"@,
        projection_json(projected(record, snapshot, degraded)),
    ));
}

spec fn payload_edit(degraded: Seq<Seq<char>>) -> Edit {
    Edit::Fields("snapshot"@, Box::new(marks_edit(degraded)), "projectId"@, Box::new(Edit::Same))
}

proof fn replacements_are_edited(record: RecordView, snapshot: SnapshotView, degraded: Seq<Seq<char>>)
    requires
        degraded.len() == 0 || degraded == stale_marks(),
    ensures
        edited(
            event_message("snapshot.replaced"@, replaced_payload(record.id, projected(record, snapshot, stale_marks()))),
            Edit::Fields("payload"@, Box::new(payload_edit(degraded)), "kind"@, Box::new(Edit::Same)),
        ) == Some(
            (
                event_message("snapshot.replaced"@, replaced_payload(record.id, projected(record, snapshot, degraded))),
                0int,
            ),
        ),
{
    marks_change_no_more(record, snapshot, degraded);
    reveal_strlit("snapshot");
    reveal_strlit("projectId");
    reveal_strlit("v");
    reveal_strlit("kind");
    reveal_strlit("name");
    reveal_strlit("payload");
    assert("snapshot"@.len() == 8 && "projectId"@.len() == 9);
    assert("v"@.len() == 1 && "kind"@.len() == 4 && "name"@.len() == 4 && "payload"@.len() == 7);
    assert("kind"@[0] == 'k' && "name"@[0] == 'n');
    let inner = replaced_payload(record.id, projected(record, snapshot, stale_marks()));
    let inner_after = replaced_payload(record.id, projected(record, snapshot, degraded));
    assert(edited(inner->Object_0["projectId"@], Edit::Same) == Some((inner->Object_0["projectId"@], 0int)));
    assert(inner_after->Object_0 =~= inner->Object_0.insert(
        "snapshot"@,
        projection_json(projected(record, snapshot, degraded)),
    ).insert("projectId"@, inner->Object_0["projectId"@]));
    assert(edited(inner, payload_edit(degraded)) == Some((inner_after, 0int)));
    let fields = event_message("snapshot.replaced"@, inner)->Object_0;
    let changed = event_message("snapshot.replaced"@, inner_after)->Object_0;
    assert(edited(fields["kind"@], Edit::Same) == Some((fields["kind"@], 0int)));
    assert(fields["payload"@] == inner);
    assert(changed =~= fields.insert("payload"@, inner_after).insert("kind"@, fields["kind"@]));
}

/// Where the three frames in which a snapshot is longest are within the room
/// that is left for an id, every frame that may carry it is within the limit.
pub proof fn kept_snapshots_can_be_served(record: RecordView, snapshot: SnapshotView, limit: usize, got: Seq<u8>, subscribed: Seq<u8>, replaced: Seq<u8>)
    requires
        limit >= MAX_SERIALIZED_RESPONSE_ID_BYTES,
        is_spelling(got, result_message(""@, projection_json(projected(record, snapshot, stale_marks())))),
        is_spelling(
            subscribed,
            result_message(
                ""@,
                subscription_result(longest_subscription_id(), projected(record, snapshot, stale_marks())),
            ),
        ),
        is_spelling(
            replaced,
            event_message("snapshot.replaced"@, replaced_payload(record.id, projected(record, snapshot, stale_marks()))),
        ),
        got.len() <= response_room(limit),
        subscribed.len() <= response_room(limit),
        replaced.len() <= limit,
    ensures
        can_be_served(record, snapshot, limit),
{
    let stale = projected(record, snapshot, stale_marks());
    assert forall|id: Seq<char>, degraded: Seq<Seq<char>>, connection: ConnectionId, ordinal: u64|
        encode_utf8(id).len() <= RESPONSE_ID_BYTES && (degraded.len() == 0 || degraded == stale_marks()) && connection
            <= usize::MAX implies #[trigger] frames_fit(
        record,
        snapshot,
        limit,
        id,
        degraded,
        subscription_id(connection, ordinal),
    ) by {
        let subscription = subscription_id(connection, ordinal);
        let projection = projected(record, snapshot, degraded);
        assert(most_bytes(id) <= MAX_SERIALIZED_RESPONSE_ID_BYTES);
        marks_change_no_more(record, snapshot, degraded);
        results_are_edited(id, projection_json(stale), marks_edit(degraded), projection_json(projection), 0);
        subscription_ids_are_bounded(connection, ordinal);
        subscriptions_are_edited(longest_subscription_id(), subscription, record, snapshot, degraded);
        results_are_edited(
            id,
            subscription_result(longest_subscription_id(), stale),
            Edit::Fields(
                "subscriptionId"@,
                Box::new(Edit::Text(subscription)),
                "snapshot"@,
                Box::new(marks_edit(degraded)),
            ),
            subscription_result(subscription, projection),
            most_bytes(subscription) - encode_utf8(longest_subscription_id()).len(),
        );
        replacements_are_edited(record, snapshot, degraded);
    }
}

/// So no answer with a kept snapshot and no event about it is ever too large
/// for a frame.
pub proof fn served_frames_are_within_the_frame_size(view: ServerView, record: RecordView, snapshot: SnapshotView, id: Seq<char>, degraded: Seq<Seq<char>>, connection: ConnectionId, ordinal: u64)
    requires
        can_be_served(record, snapshot, view.retained_limit()),
        encode_utf8(id).len() <= RESPONSE_ID_BYTES,
        degraded.len() == 0 || degraded == stale_marks(),
        connection <= usize::MAX,
    ensures
        frames_fit(record, snapshot, view.limits.frame_bytes, id, degraded, subscription_id(connection, ordinal)),
{
    assert(frames_fit(record, snapshot, view.retained_limit(), id, degraded, subscription_id(connection, ordinal)));
}

} // verus!
