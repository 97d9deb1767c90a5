//! What the daemon writes to a connection arrives: a client that reads lines
//! and documents gets back exactly what was meant.

use crate::envelope::{error_message, event_message, read_envelope, result_message, sent_messages_are_understood,
    EnvelopeView, ErrorBodyView, EventName, PROTOCOL_VERSION};
use crate::framing::{a_written_line_is_read_back, is_spelling, lines_after, open_line, Lines};
use crate::json::{json_parsed, plain_within, JsonView, MAX_NESTING};
use crate::project::{ClaimView, EscalationView, ProjectionView, SnapshotView, TaskIdView, TaskView};
use crate::project_json::{claim_json, escalation_json, ids_json, projection_json, projection_reads_back,
    read_projection, snapshot_fields, task_fields, task_json, tasks_json, texts_json};
use crate::server::snapshots::{code_json, failed_payload, replaced_payload, subscription_result};
use vstd::prelude::*;

verus! {

// ---------------------------------------------------------------------------
// Plain documents

proof fn shallow_is_plain(json: JsonView, depth: nat, deeper: nat)
    requires
        plain_within(json, depth),
        depth <= deeper,
    ensures
        plain_within(json, deeper),
    decreases depth,
{
    match json {
        JsonView::List(items) => {
            assert forall|i: int| 0 <= i < items.len() implies plain_within(#[trigger] items[i], (deeper - 1) as nat) by {
                shallow_is_plain(items[i], (depth - 1) as nat, (deeper - 1) as nat);
            }
        },
        JsonView::Object(fields) => {
            assert forall|key: Seq<char>| #[trigger] fields.dom().contains(key) implies plain_within(fields[key], (deeper - 1) as nat) by {
                shallow_is_plain(fields[key], (depth - 1) as nat, (deeper - 1) as nat);
            }
        },
        _ => {},
    }
}

/// Every field is plain within the depth.
spec fn plain_fields(fields: Map<Seq<char>, JsonView>, depth: nat) -> bool {
    forall|key: Seq<char>| #[trigger] fields.dom().contains(key) ==> plain_within(fields[key], depth)
}

proof fn texts_are_plain(texts: Seq<Seq<char>>)
    ensures
        plain_within(texts_json(texts), 1),
{
    reveal_with_fuel(plain_within, 2);
}

proof fn ids_are_plain(ids: Seq<TaskIdView>)
    ensures
        plain_within(ids_json(ids), 1),
{
    reveal_with_fuel(plain_within, 2);
}

proof fn claims_are_plain(claim: ClaimView)
    ensures
        plain_within(claim_json(claim), 1),
{
    reveal_with_fuel(plain_within, 2);
}

proof fn escalations_are_plain(escalation: EscalationView)
    ensures
        plain_within(escalation_json(escalation), 2),
{
    reveal_with_fuel(plain_within, 2);
    texts_are_plain(escalation.options);
}

proof fn tasks_are_plain(task: TaskView)
    ensures
        plain_within(task_json(task), 3),
{
    let fields = task_fields(task);
    ids_are_plain(task.deps);
    shallow_is_plain(ids_json(task.deps), 1, 2);
    if let Some(claim) = task.claim {
        claims_are_plain(claim);
        shallow_is_plain(claim_json(claim), 1, 2);
    }
    if let Some(escalation) = task.escalation {
        escalations_are_plain(escalation);
    }
    assert(plain_fields(fields, 2));
}

proof fn snapshots_are_plain(fields: Map<Seq<char>, JsonView>, snapshot: SnapshotView)
    requires
        plain_fields(fields, 4),
    ensures
        plain_fields(snapshot_fields(fields, snapshot), 4),
{
    let tasks = tasks_json(snapshot.tasks);
    assert(plain_within(tasks, 4)) by {
        assert forall|i: int| 0 <= i < snapshot.tasks.len() implies plain_within(#[trigger] tasks->List_0[i], 3) by {
            tasks_are_plain(snapshot.tasks[i]);
        }
    }
}

/// A projection is made of texts, whole numbers, lists and objects only.
pub proof fn projections_are_plain(projection: ProjectionView)
    ensures
        plain_within(projection_json(projection), 5),
{
    let head = Map::empty()
        .insert("projectId"@, JsonView::Text(projection.project_id))
        .insert("path"@, JsonView::Text(projection.path))
        .insert("degraded"@, texts_json(projection.degraded));
    texts_are_plain(projection.degraded);
    shallow_is_plain(texts_json(projection.degraded), 1, 4);
    assert(plain_fields(head, 4));
    snapshots_are_plain(head, projection.snapshot);
}

proof fn results_are_plain(id: Seq<char>, result: JsonView, depth: nat)
    requires
        plain_within(result, depth),
    ensures
        plain_within(result_message(id, result), depth + 1),
{
    reveal_with_fuel(plain_within, 2);
}

proof fn events_are_plain(name: Seq<char>, payload: JsonView, depth: nat)
    requires
        plain_within(payload, depth),
    ensures
        plain_within(event_message(name, payload), depth + 1),
{
    reveal_with_fuel(plain_within, 2);
}

// ---------------------------------------------------------------------------
// Arriving

/// A client that reads the line finds one frame, and in it that document.
pub open spec fn arrives(bytes: Seq<u8>, document: JsonView, limit: usize) -> bool {
    &&& lines_after(open_line(Seq::empty()), bytes.push(10u8), limit) == (Lines {
        frames: seq![bytes],
        partial: Seq::empty(),
        oversized: false,
    })
    &&& json_parsed(bytes) == Ok::<JsonView, Seq<char>>(document)
}

proof fn plain_documents_arrive(bytes: Seq<u8>, document: JsonView, depth: nat, limit: usize)
    requires
        is_spelling(bytes, document),
        plain_within(document, depth),
        depth <= MAX_NESTING,
        bytes.len() <= limit,
    ensures
        arrives(bytes, document, limit),
{
    shallow_is_plain(document, depth, MAX_NESTING as nat);
    a_written_line_is_read_back(bytes, limit);
}

/// A snapshot that is sent in answer to a request arrives: its frame is read
/// as one line, the line as the answer to that request, and the answer as the
/// very projection that was sent.
pub proof fn sent_snapshots_arrive(bytes: Seq<u8>, id: Seq<char>, projection: ProjectionView, limit: usize)
    requires
        is_spelling(bytes, result_message(id, projection_json(projection))),
        bytes.len() <= limit,
    ensures
        arrives(bytes, result_message(id, projection_json(projection)), limit),
        read_envelope(result_message(id, projection_json(projection))) == Some(
            EnvelopeView::Response {
                version: PROTOCOL_VERSION,
                id,
                ok: true,
                result: Some(projection_json(projection)),
                error: None,
            },
        ),
        read_projection(projection_json(projection)) == Some(projection),
{
    projections_are_plain(projection);
    results_are_plain(id, projection_json(projection), 5);
    plain_documents_arrive(bytes, result_message(id, projection_json(projection)), 6, limit);
    sent_messages_are_understood(id, projection_json(projection), Seq::empty(), Seq::empty(), EventName::SnapshotReplaced, JsonView::Null);
    projection_reads_back(projection);
}

/// A subscription that is granted arrives with its id and its snapshot.
pub proof fn granted_subscriptions_arrive(bytes: Seq<u8>, id: Seq<char>, subscription: Seq<char>, projection: ProjectionView, limit: usize)
    requires
        is_spelling(bytes, result_message(id, subscription_result(subscription, projection))),
        bytes.len() <= limit,
    ensures
        arrives(bytes, result_message(id, subscription_result(subscription, projection)), limit),
        read_envelope(result_message(id, subscription_result(subscription, projection))) == Some(
            EnvelopeView::Response {
                version: PROTOCOL_VERSION,
                id,
                ok: true,
                result: Some(subscription_result(subscription, projection)),
                error: None,
            },
        ),
        read_projection(projection_json(projection)) == Some(projection),
{
    projections_are_plain(projection);
    let result = subscription_result(subscription, projection);
    assert(plain_within(result, 6)) by {
        reveal_with_fuel(plain_within, 2);
    }
    results_are_plain(id, result, 6);
    plain_documents_arrive(bytes, result_message(id, result), 7, limit);
    sent_messages_are_understood(id, result, Seq::empty(), Seq::empty(), EventName::SnapshotReplaced, JsonView::Null);
    projection_reads_back(projection);
}

/// A refusal arrives with its code and its message.
pub proof fn refusals_arrive(bytes: Seq<u8>, id: Seq<char>, code: Seq<char>, message: Seq<char>, limit: usize)
    requires
        is_spelling(bytes, error_message(id, code, message)),
        bytes.len() <= limit,
    ensures
        arrives(bytes, error_message(id, code, message), limit),
        read_envelope(error_message(id, code, message)) == Some(
            EnvelopeView::Response {
                version: PROTOCOL_VERSION,
                id,
                ok: false,
                result: None,
                error: Some(ErrorBodyView { code, message }),
            },
        ),
{
    assert(plain_within(error_message(id, code, message), 2)) by {
        reveal_with_fuel(plain_within, 3);
    }
    plain_documents_arrive(bytes, error_message(id, code, message), 2, limit);
    sent_messages_are_understood(id, JsonView::Bool(true), code, message, EventName::SnapshotReplaced, JsonView::Null);
}

/// A new snapshot that followers are told about arrives as it is.
pub proof fn replaced_snapshots_arrive(bytes: Seq<u8>, project: Seq<char>, projection: ProjectionView, limit: usize)
    requires
        is_spelling(bytes, event_message("snapshot.replaced"@, replaced_payload(project, projection))),
        bytes.len() <= limit,
    ensures
        arrives(bytes, event_message("snapshot.replaced"@, replaced_payload(project, projection)), limit),
        read_envelope(event_message("snapshot.replaced"@, replaced_payload(project, projection))) == Some(
            EnvelopeView::Event {
                version: PROTOCOL_VERSION,
                name: EventName::SnapshotReplaced,
                payload: replaced_payload(project, projection),
            },
        ),
        read_projection(projection_json(projection)) == Some(projection),
{
    projections_are_plain(projection);
    let payload = replaced_payload(project, projection);
    assert(plain_within(payload, 6)) by {
        reveal_with_fuel(plain_within, 2);
    }
    events_are_plain("snapshot.replaced"@, payload, 6);
    plain_documents_arrive(bytes, event_message("snapshot.replaced"@, payload), 7, limit);
    sent_messages_are_understood(Seq::empty(), JsonView::Bool(true), Seq::empty(), Seq::empty(), EventName::SnapshotReplaced, payload);
    projection_reads_back(projection);
}

/// A failure that followers are told about arrives with its message and code.
pub proof fn failures_arrive(bytes: Seq<u8>, project: Seq<char>, message: Seq<char>, code: Option<i32>, limit: usize)
    requires
        is_spelling(bytes, event_message("snapshot.failed"@, failed_payload(project, message, code))),
        bytes.len() <= limit,
    ensures
        arrives(bytes, event_message("snapshot.failed"@, failed_payload(project, message, code)), limit),
        read_envelope(event_message("snapshot.failed"@, failed_payload(project, message, code))) == Some(
            EnvelopeView::Event {
                version: PROTOCOL_VERSION,
                name: EventName::SnapshotFailed,
                payload: failed_payload(project, message, code),
            },
        ),
{
    let payload = failed_payload(project, message, code);
    assert(plain_within(code_json(code), 0));
    assert(plain_within(payload, 1)) by {
        reveal_with_fuel(plain_within, 2);
    }
    events_are_plain("snapshot.failed"@, payload, 1);
    plain_documents_arrive(bytes, event_message("snapshot.failed"@, payload), 2, limit);
    sent_messages_are_understood(Seq::empty(), JsonView::Bool(true), Seq::empty(), Seq::empty(), EventName::SnapshotFailed, payload);
}

} // verus!
