//! What stands in the messages on the socket, field by field.

use crate::envelope::{envelope_json, error_json, error_message, event_message, event_names_read_back, method_name,
    read_envelope, result_message, EnvelopeView, ErrorBodyView, EventName, MethodView};
use crate::json::{json_field, JsonView};
use crate::project::{ProjectionView, RecordView};
use crate::project_json::projection_json;
use crate::server::endings::ended_payload;
use crate::server::registry_watch::updated_payload;
use crate::server::request::{hello_result, list_result, listed, unsubscribe_result};
use crate::server::snapshots::{code_json, failed_payload, replaced_payload, subscription_result};
use vstd::prelude::*;

verus! {

/// The fields are those of a document and all that it has.
pub open spec fn has_fields(document: JsonView, keys: Seq<Seq<char>>) -> bool {
    &&& document is Object
    &&& forall|key: Seq<char>| keys.contains(key) <==> (#[trigger] json_field(document, key)) is Some
}

/// A response to a request says which request it answers and that it went
/// well, and carries the result and no error.
pub proof fn results_answer_their_request(id: Seq<char>, result: JsonView)
    ensures
        ({
            let document = result_message(id, result);
            &&& json_field(document, "v"@) == Some(JsonView::Unsigned(1))
            &&& json_field(document, "kind"@) == Some(JsonView::Text("res"@))
            &&& json_field(document, "id"@) == Some(JsonView::Text(id))
            &&& json_field(document, "ok"@) == Some(JsonView::Bool(true))
            &&& json_field(document, "result"@) == Some(result)
            &&& has_fields(document, seq!["v"@, "kind"@, "id"@, "ok"@, "result"@])
        }),
{
    response_keys_differ();
    let document = result_message(id, result);
    let keys = seq!["v"@, "kind"@, "id"@, "ok"@, "result"@];
    assert(keys[0] == "v"@ && keys[1] == "kind"@ && keys[2] == "id"@ && keys[3] == "ok"@ && keys[4] == "result"@);
    assert(has_fields(document, keys));
}

/// A refusal says which request it answers and that it went wrong, and carries
/// the code and the message of the error and no result.
pub proof fn refusals_answer_their_request(id: Seq<char>, code: Seq<char>, message: Seq<char>)
    ensures
        ({
            let document = error_message(id, code, message);
            let error = json_field(document, "error"@)->0;
            &&& json_field(document, "v"@) == Some(JsonView::Unsigned(1))
            &&& json_field(document, "kind"@) == Some(JsonView::Text("res"@))
            &&& json_field(document, "id"@) == Some(JsonView::Text(id))
            &&& json_field(document, "ok"@) == Some(JsonView::Bool(false))
            &&& json_field(error, "code"@) == Some(JsonView::Text(code))
            &&& json_field(error, "message"@) == Some(JsonView::Text(message))
            &&& has_fields(document, seq!["v"@, "kind"@, "id"@, "ok"@, "error"@])
            &&& has_fields(error, seq!["code"@, "message"@])
        }),
{
    response_keys_differ();
    reveal_strlit("code");
    reveal_strlit("message");
    assert("code"@.len() != "message"@.len());
    let document = error_message(id, code, message);
    let error = error_json(ErrorBodyView { code, message });
    let keys = seq!["v"@, "kind"@, "id"@, "ok"@, "error"@];
    assert(keys[0] == "v"@ && keys[1] == "kind"@ && keys[2] == "id"@ && keys[3] == "ok"@ && keys[4] == "error"@);
    assert(has_fields(document, keys));
    let parts = seq!["code"@, "message"@];
    assert(parts[0] == "code"@ && parts[1] == "message"@);
    assert(has_fields(error, parts));
}

proof fn response_keys_differ()
    ensures
        "v"@ != "kind"@,
        "v"@ != "id"@,
        "v"@ != "ok"@,
        "v"@ != "result"@,
        "v"@ != "error"@,
        "kind"@ != "id"@,
        "kind"@ != "ok"@,
        "kind"@ != "result"@,
        "kind"@ != "error"@,
        "id"@ != "ok"@,
        "id"@ != "result"@,
        "id"@ != "error"@,
        "ok"@ != "result"@,
        "ok"@ != "error"@,
        "result"@ != "error"@,
{
    reveal_strlit("v");
    reveal_strlit("kind");
    reveal_strlit("id");
    reveal_strlit("ok");
    reveal_strlit("result");
    reveal_strlit("error");
    assert("v"@.len() == 1 && "kind"@.len() == 4 && "id"@.len() == 2 && "ok"@.len() == 2 && "result"@.len() == 6
        && "error"@.len() == 5);
    assert("id"@[0] != "ok"@[0]);
}

/// An event says its name and carries its payload, and answers nothing.
pub proof fn events_say_their_name(name: Seq<char>, payload: JsonView)
    ensures
        ({
            let document = event_message(name, payload);
            &&& json_field(document, "v"@) == Some(JsonView::Unsigned(1))
            &&& json_field(document, "kind"@) == Some(JsonView::Text("event"@))
            &&& json_field(document, "name"@) == Some(JsonView::Text(name))
            &&& json_field(document, "payload"@) == Some(payload)
            &&& has_fields(document, seq!["v"@, "kind"@, "name"@, "payload"@])
        }),
{
    reveal_strlit("v");
    reveal_strlit("kind");
    reveal_strlit("name");
    reveal_strlit("payload");
    assert("v"@.len() == 1 && "kind"@.len() == 4 && "name"@.len() == 4 && "payload"@.len() == 7);
    assert("kind"@[0] != "name"@[0]);
    let keys = seq!["v"@, "kind"@, "name"@, "payload"@];
    assert(keys[0] == "v"@ && keys[1] == "kind"@ && keys[2] == "name"@ && keys[3] == "payload"@);
    assert(has_fields(event_message(name, payload), keys));
}

/// What is announced of a project: its id, its path and whether it is enabled.
pub proof fn announcements_describe_the_project(id: Seq<char>, path: Seq<char>, enabled: bool)
    ensures
        ({
            let payload = updated_payload(id, path, enabled);
            &&& json_field(payload, "projectId"@) == Some(JsonView::Text(id))
            &&& json_field(payload, "path"@) == Some(JsonView::Text(path))
            &&& json_field(payload, "enabled"@) == Some(JsonView::Bool(enabled))
            &&& has_fields(payload, seq!["projectId"@, "path"@, "enabled"@])
        }),
{
    reveal_strlit("projectId");
    reveal_strlit("path");
    reveal_strlit("enabled");
    assert("projectId"@.len() == 9 && "path"@.len() == 4 && "enabled"@.len() == 7);
    let keys = seq!["projectId"@, "path"@, "enabled"@];
    assert(keys[0] == "projectId"@ && keys[1] == "path"@ && keys[2] == "enabled"@);
    assert(has_fields(updated_payload(id, path, enabled), keys));
}

/// What followers are told of a failure: the project, why, and the exit code
/// as the number that it is, or null where there is none.
pub proof fn failures_are_described(project: Seq<char>, message: Seq<char>, code: Option<i32>)
    ensures
        ({
            let payload = failed_payload(project, message, code);
            &&& json_field(payload, "projectId"@) == Some(JsonView::Text(project))
            &&& json_field(payload, "message"@) == Some(JsonView::Text(message))
            &&& match code {
                None => json_field(payload, "exitCode"@) == Some(JsonView::Null),
                Some(number) => {
                    ||| json_field(payload, "exitCode"@) matches Some(JsonView::Unsigned(n)) && n == number
                    ||| json_field(payload, "exitCode"@) matches Some(JsonView::Negative(n)) && n == number && n < 0
                },
            }
            &&& has_fields(payload, seq!["projectId"@, "message"@, "exitCode"@])
        }),
{
    reveal_strlit("projectId");
    reveal_strlit("message");
    reveal_strlit("exitCode");
    assert("projectId"@.len() == 9 && "message"@.len() == 7 && "exitCode"@.len() == 8);
    let payload = failed_payload(project, message, code);
    let keys = seq!["projectId"@, "message"@, "exitCode"@];
    assert(keys[0] == "projectId"@ && keys[1] == "message"@ && keys[2] == "exitCode"@);
    assert(has_fields(payload, keys));
    assert(json_field(payload, "exitCode"@) == Some(code_json(code)));
}

/// What followers are told of a new snapshot: the project and the snapshot.
pub proof fn replacements_carry_the_snapshot(project: Seq<char>, projection: ProjectionView)
    ensures
        ({
            let payload = replaced_payload(project, projection);
            &&& json_field(payload, "projectId"@) == Some(JsonView::Text(project))
            &&& json_field(payload, "snapshot"@) == Some(projection_json(projection))
            &&& has_fields(payload, seq!["projectId"@, "snapshot"@])
        }),
{
    reveal_strlit("projectId");
    reveal_strlit("snapshot");
    assert("projectId"@.len() == 9 && "snapshot"@.len() == 8);
    let keys = seq!["projectId"@, "snapshot"@];
    assert(keys[0] == "projectId"@ && keys[1] == "snapshot"@);
    assert(has_fields(replaced_payload(project, projection), keys));
}

/// Who subscribes is told the id of the subscription and the snapshot.
pub proof fn subscribers_get_id_and_snapshot(id: Seq<char>, projection: ProjectionView)
    ensures
        ({
            let result = subscription_result(id, projection);
            &&& json_field(result, "subscriptionId"@) == Some(JsonView::Text(id))
            &&& json_field(result, "snapshot"@) == Some(projection_json(projection))
            &&& has_fields(result, seq!["subscriptionId"@, "snapshot"@])
        }),
{
    reveal_strlit("subscriptionId");
    reveal_strlit("snapshot");
    assert("subscriptionId"@.len() == 14 && "snapshot"@.len() == 8);
    let keys = seq!["subscriptionId"@, "snapshot"@];
    assert(keys[0] == "subscriptionId"@ && keys[1] == "snapshot"@);
    assert(has_fields(subscription_result(id, projection), keys));
}

/// At the end of a subscription its owner is told which one ended, and why.
pub proof fn ends_name_the_subscription(subscription: Seq<char>, reason: Seq<char>)
    ensures
        ({
            let payload = ended_payload(subscription, reason);
            &&& json_field(payload, "subscriptionId"@) == Some(JsonView::Text(subscription))
            &&& json_field(payload, "reason"@) == Some(JsonView::Text(reason))
            &&& has_fields(payload, seq!["subscriptionId"@, "reason"@])
        }),
{
    reveal_strlit("subscriptionId");
    reveal_strlit("reason");
    assert("subscriptionId"@.len() == 14 && "reason"@.len() == 6);
    let keys = seq!["subscriptionId"@, "reason"@];
    assert(keys[0] == "subscriptionId"@ && keys[1] == "reason"@);
    assert(has_fields(ended_payload(subscription, reason), keys));
}

/// The daemon greets with the version of the protocol, its own version and the
/// versions of snapshots that it takes, which is one.
pub proof fn greetings_tell_the_versions(version: Seq<char>)
    ensures
        ({
            let result = hello_result(version);
            &&& json_field(result, "protocolVersion"@) == Some(JsonView::Unsigned(1))
            &&& json_field(result, "serverVersion"@) == Some(JsonView::Text(version))
            &&& json_field(result, "snapshotSchemaMin"@) == Some(JsonView::Unsigned(1))
            &&& json_field(result, "snapshotSchemaMax"@) == Some(JsonView::Unsigned(1))
            &&& has_fields(result, seq!["protocolVersion"@, "serverVersion"@, "snapshotSchemaMin"@, "snapshotSchemaMax"@])
        }),
{
    reveal_strlit("protocolVersion");
    reveal_strlit("serverVersion");
    reveal_strlit("snapshotSchemaMin");
    reveal_strlit("snapshotSchemaMax");
    assert("protocolVersion"@.len() == 15 && "serverVersion"@.len() == 13 && "snapshotSchemaMin"@.len() == 17
        && "snapshotSchemaMax"@.len() == 17);
    assert("snapshotSchemaMin"@[15] != "snapshotSchemaMax"@[15]);
    let keys = seq!["protocolVersion"@, "serverVersion"@, "snapshotSchemaMin"@, "snapshotSchemaMax"@];
    assert(keys[0] == "protocolVersion"@ && keys[1] == "serverVersion"@ && keys[2] == "snapshotSchemaMin"@ && keys[3]
        == "snapshotSchemaMax"@);
    assert(has_fields(hello_result(version), keys));
}

/// The document is the row of a project: its id, path, name and whether it is
/// enabled.
pub open spec fn is_row_of(row: JsonView, record: RecordView) -> bool {
    &&& json_field(row, "id"@) == Some(JsonView::Text(record.id))
    &&& json_field(row, "path"@) == Some(JsonView::Text(record.path))
    &&& json_field(row, "name"@) == Some(JsonView::Text(record.name))
    &&& json_field(row, "enabled"@) == Some(JsonView::Bool(record.enabled))
    &&& has_fields(row, seq!["id"@, "path"@, "name"@, "enabled"@])
}

proof fn rows_describe_their_project(record: RecordView)
    ensures
        is_row_of(listed(record), record),
{
    reveal_strlit("id");
    reveal_strlit("path");
    reveal_strlit("name");
    reveal_strlit("enabled");
    assert("id"@.len() == 2 && "path"@.len() == 4 && "name"@.len() == 4 && "enabled"@.len() == 7);
    assert("path"@[0] != "name"@[0]);
    let keys = seq!["id"@, "path"@, "name"@, "enabled"@];
    assert(keys[0] == "id"@ && keys[1] == "path"@ && keys[2] == "name"@ && keys[3] == "enabled"@);
    assert(has_fields(listed(record), keys));
}

/// The list of projects has one row for each, in the order of the registry,
/// and each row describes its own project.
pub proof fn every_project_is_listed(projects: Seq<RecordView>)
    ensures
        json_field(list_result(projects), "projects"@) matches Some(JsonView::List(rows)) && rows.len() == projects.len()
            && forall|i: int| 0 <= i < rows.len() ==> is_row_of(#[trigger] rows[i], projects[i]),
        has_fields(list_result(projects), seq!["projects"@]),
{
    let rows = Seq::new(projects.len(), |i: int| listed(projects[i]));
    assert(json_field(list_result(projects), "projects"@) == Some(JsonView::List(rows)));
    assert forall|i: int| 0 <= i < rows.len() implies is_row_of(#[trigger] rows[i], projects[i]) by {
        rows_describe_their_project(projects[i]);
    }
    let keys = seq!["projects"@];
    assert(keys[0] == "projects"@);
    assert(has_fields(list_result(projects), keys));
}

/// A subscription that is given up is acknowledged.
pub proof fn giving_up_is_acknowledged()
    ensures
        json_field(unsubscribe_result(), "ok"@) == Some(JsonView::Bool(true)),
        has_fields(unsubscribe_result(), seq!["ok"@]),
{
    let keys = seq!["ok"@];
    assert(keys[0] == "ok"@);
    assert(has_fields(unsubscribe_result(), keys));
}

// ---------------------------------------------------------------------------
// Reading messages

/// A field that says something: it is there and not null.
pub open spec fn says_something(document: JsonView, key: Seq<char>) -> bool {
    json_field(document, key) is Some && json_field(document, key) != Some(JsonView::Null)
}

/// The document is a successful response: it carries a result and no error.
pub open spec fn is_good_response(document: JsonView, version: u64, id: Seq<char>, result: JsonView) -> bool {
    &&& json_field(document, "kind"@) == Some(JsonView::Text("res"@))
    &&& json_field(document, "v"@) == Some(JsonView::Unsigned(version))
    &&& json_field(document, "id"@) == Some(JsonView::Text(id))
    &&& json_field(document, "ok"@) == Some(JsonView::Bool(true))
    &&& json_field(document, "result"@) == Some(result)
    &&& says_something(document, "result"@)
    &&& !says_something(document, "error"@)
}

/// The document is a refusal: it carries an error and no result.
pub open spec fn is_bad_response(document: JsonView, version: u64, id: Seq<char>, code: Seq<char>, message: Seq<char>) -> bool {
    let error = json_field(document, "error"@)->0;
    &&& json_field(document, "kind"@) == Some(JsonView::Text("res"@))
    &&& json_field(document, "v"@) == Some(JsonView::Unsigned(version))
    &&& json_field(document, "id"@) == Some(JsonView::Text(id))
    &&& json_field(document, "ok"@) == Some(JsonView::Bool(false))
    &&& json_field(error, "code"@) == Some(JsonView::Text(code))
    &&& json_field(error, "message"@) == Some(JsonView::Text(message))
    &&& says_something(document, "error"@)
    &&& !says_something(document, "result"@)
}

proof fn kinds_differ()
    ensures
        "req"@ != "res"@,
        "req"@ != "event"@,
        "res"@ != "event"@,
{
    reveal_strlit("req");
    reveal_strlit("res");
    reveal_strlit("event");
    assert("req"@.len() == 3 && "res"@.len() == 3 && "event"@.len() == 5);
    assert("req"@[2] != "res"@[2]);
}

/// A response is read as what it says: as a result exactly if it is a
/// successful one, as an error exactly if it is a refusal, and not at all if it
/// is neither.
pub proof fn responses_are_read_as_they_are(document: JsonView, version: u64, id: Seq<char>, result: JsonView, error: ErrorBodyView)
    ensures
        read_envelope(document) == Some(EnvelopeView::Response { version, id, ok: true, result: Some(result), error: None })
            <==> is_good_response(document, version, id, result),
        read_envelope(document) == Some(EnvelopeView::Response { version, id, ok: false, result: None, error: Some(error) })
            <==> is_bad_response(document, version, id, error.code, error.message),
        read_envelope(document) matches Some(EnvelopeView::Response { version, id, ok, result, error }) ==> ok == (result is Some) && ok
            != (error is Some),
{
    kinds_differ();
}

/// An event is read exactly if it has one of the four names, and as that event.
pub proof fn events_are_read_by_their_name(document: JsonView, version: u64, payload: JsonView)
    requires
        json_field(document, "kind"@) == Some(JsonView::Text("event"@)),
        json_field(document, "v"@) == Some(JsonView::Unsigned(version)),
        json_field(document, "payload"@) == Some(payload),
    ensures
        json_field(document, "name"@) == Some(JsonView::Text("project.updated"@)) ==> read_envelope(document) == Some(
            EnvelopeView::Event { version, name: EventName::ProjectUpdated, payload },
        ),
        json_field(document, "name"@) == Some(JsonView::Text("snapshot.replaced"@)) ==> read_envelope(document) == Some(
            EnvelopeView::Event { version, name: EventName::SnapshotReplaced, payload },
        ),
        json_field(document, "name"@) == Some(JsonView::Text("snapshot.failed"@)) ==> read_envelope(document) == Some(
            EnvelopeView::Event { version, name: EventName::SnapshotFailed, payload },
        ),
        json_field(document, "name"@) == Some(JsonView::Text("subscription.ended"@)) ==> read_envelope(document) == Some(
            EnvelopeView::Event { version, name: EventName::SubscriptionEnded, payload },
        ),
        !(json_field(document, "name"@) matches Some(JsonView::Text(name)) && (name == "project.updated"@ || name == "snapshot.replaced"@
            || name == "snapshot.failed"@ || name == "subscription.ended"@)) ==> read_envelope(document) is None,
{
    kinds_differ();
    event_names_read_back(EventName::ProjectUpdated);
    event_names_read_back(EventName::SnapshotReplaced);
    event_names_read_back(EventName::SnapshotFailed);
    event_names_read_back(EventName::SubscriptionEnded);
}

/// A request is written with its version, id, method by name and parameters.
pub proof fn requests_are_written_in_full(version: u64, id: Seq<char>, name: Seq<char>, params: JsonView)
    ensures
        ({
            let document = envelope_json(EnvelopeView::Request { version, id, method: MethodView::Unknown(name), params });
            &&& json_field(document, "kind"@) == Some(JsonView::Text("req"@))
            &&& json_field(document, "v"@) == Some(JsonView::Unsigned(version))
            &&& json_field(document, "id"@) == Some(JsonView::Text(id))
            &&& json_field(document, "method"@) == Some(JsonView::Text(name))
            &&& json_field(document, "params"@) == Some(params)
        }),
        method_name(MethodView::ServerHello) == "server.hello"@,
        method_name(MethodView::ProjectList) == "project.list"@,
        method_name(MethodView::SnapshotGet) == "snapshot.get"@,
        method_name(MethodView::SnapshotSubscribe) == "snapshot.subscribe"@,
        method_name(MethodView::SnapshotUnsubscribe) == "snapshot.unsubscribe"@,
{
    reveal_strlit("v");
    reveal_strlit("kind");
    reveal_strlit("id");
    reveal_strlit("method");
    reveal_strlit("params");
    assert("v"@.len() == 1 && "kind"@.len() == 4 && "id"@.len() == 2 && "method"@.len() == 6 && "params"@.len() == 6);
    assert("method"@[0] != "params"@[0]);
}

} // verus!
