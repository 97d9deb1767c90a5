//! What documents about tasks, snapshots and projects say, field by field.

use crate::json::{json_field, JsonView};
use crate::project::{ClaimView, EscalationView, ProjectMode, ProjectionView, RecordView, SnapshotView, TaskIdView, TaskView};
use crate::project_json::{projection_json, projection_reads_back, read_claim, read_escalation, read_id, read_ids,
    read_projection, read_record, read_snapshot, read_task, read_tasks, read_text, read_texts, record_json, record_reads_back,
    schema_refusal, snapshot_error_text, snapshot_json, snapshot_outcome, snapshot_reads_back, task_json, task_reads_back,
    SnapshotErrorView};
use crate::text::decimal_text;
use vstd::prelude::*;

verus! {

// ---------------------------------------------------------------------------
// What documents say

pub open spec fn says_id(json: JsonView, id: TaskIdView) -> bool {
    match id {
        TaskIdView::Number(number) => json == JsonView::Unsigned(number),
        TaskIdView::String(text) => json == JsonView::Text(text),
    }
}

pub open spec fn says_ids(json: JsonView, ids: Seq<TaskIdView>) -> bool {
    json matches JsonView::List(items) && items.len() == ids.len() && forall|i: int|
        0 <= i < ids.len() ==> says_id(#[trigger] items[i], ids[i])
}

pub open spec fn says_texts(json: JsonView, texts: Seq<Seq<char>>) -> bool {
    json matches JsonView::List(items) && items.len() == texts.len() && forall|i: int|
        0 <= i < texts.len() ==> (#[trigger] items[i]) == JsonView::Text(texts[i])
}

pub open spec fn says_claim(json: JsonView, claim: ClaimView) -> bool {
    &&& json_field(json, "by"@) == Some(JsonView::Text(claim.by))
    &&& json_field(json, "at"@) == Some(JsonView::Text(claim.at))
}

pub open spec fn says_escalation(json: JsonView, escalation: EscalationView) -> bool {
    &&& json_field(json, "fork"@) == Some(JsonView::Text(escalation.fork))
    &&& json_field(json, "options"@) matches Some(options) && says_texts(options, escalation.options)
}

/// A field is missing or null.
pub open spec fn is_left_out(json: JsonView, key: Seq<char>) -> bool {
    json_field(json, key) is None || json_field(json, key) == Some(JsonView::Null)
}

/// The document describes the task, whatever other fields it has.
pub open spec fn says_task(json: JsonView, task: TaskView) -> bool {
    &&& json_field(json, "id"@) matches Some(id) && says_id(id, task.id)
    &&& json_field(json, "slug"@) == Some(JsonView::Text(task.slug))
    &&& json_field(json, "title"@) == Some(JsonView::Text(task.title))
    &&& json_field(json, "status"@) == Some(JsonView::Text(task.status))
    &&& json_field(json, "stage"@) == Some(JsonView::Text(task.stage))
    &&& json_field(json, "priority"@) == Some(JsonView::Text(task.priority))
    &&& json_field(json, "deps"@) matches Some(deps) && says_ids(deps, task.deps)
    &&& match task.blocked_reason {
        Some(reason) => json_field(json, "blockedReason"@) == Some(JsonView::Text(reason)),
        None => json_field(json, "blockedReason"@) == Some(JsonView::Null),
    }
    &&& match task.category {
        Some(category) => json_field(json, "category"@) == Some(JsonView::Text(category)),
        None => is_left_out(json, "category"@),
    }
    &&& match task.discovered_from {
        Some(origin) => json_field(json, "discoveredFrom"@) matches Some(id) && says_id(id, origin),
        None => is_left_out(json, "discoveredFrom"@),
    }
    &&& match task.claim {
        Some(claim) => json_field(json, "claim"@) matches Some(inner) && says_claim(inner, claim),
        None => is_left_out(json, "claim"@),
    }
    &&& match task.escalation {
        Some(escalation) => json_field(json, "escalation"@) matches Some(inner) && says_escalation(inner, escalation),
        None => is_left_out(json, "escalation"@),
    }
}

/// The document describes the snapshot, whatever other fields it has.
pub open spec fn says_snapshot(json: JsonView, snapshot: SnapshotView) -> bool {
    &&& json_field(json, "schemaVersion"@) == Some(JsonView::Unsigned(snapshot.schema_version))
    &&& json_field(json, "generatedAt"@) == Some(JsonView::Text(snapshot.generated_at))
    &&& json_field(json, "mode"@) == Some(JsonView::Text(match snapshot.mode {
        ProjectMode::Lite => "lite"@,
        ProjectMode::Full => "full"@,
    }))
    &&& match snapshot.max_parallel_tasks {
        Some(number) => json_field(json, "maxParallelTasks"@) == Some(JsonView::Unsigned(number)),
        None => is_left_out(json, "maxParallelTasks"@),
    }
    &&& json_field(json, "tasks"@) matches Some(JsonView::List(items)) && items.len() == snapshot.tasks.len() && forall|i: int|
        0 <= i < items.len() ==> says_task(#[trigger] items[i], snapshot.tasks[i])
}

/// The document describes what is shown of a project: its id and path, the
/// snapshot, and what the snapshot lacks.
pub open spec fn says_projection(json: JsonView, projection: ProjectionView) -> bool {
    &&& json_field(json, "projectId"@) == Some(JsonView::Text(projection.project_id))
    &&& json_field(json, "path"@) == Some(JsonView::Text(projection.path))
    &&& says_snapshot(json, projection.snapshot)
    &&& json_field(json, "degraded"@) matches Some(degraded) && says_texts(degraded, projection.degraded)
}

/// The document registers the project.
pub open spec fn says_record(json: JsonView, record: RecordView) -> bool {
    &&& json_field(json, "id"@) == Some(JsonView::Text(record.id))
    &&& json_field(json, "path"@) == Some(JsonView::Text(record.path))
    &&& json_field(json, "name"@) == Some(JsonView::Text(record.name))
    &&& json_field(json, "enabled"@) == Some(JsonView::Bool(record.enabled))
    &&& match record.cook {
        Some(command) => json_field(json, "cook"@) matches Some(inner) && says_texts(inner, command),
        None => is_left_out(json, "cook"@),
    }
}

// ---------------------------------------------------------------------------
// Reading

proof fn ids_are_read(json: JsonView, id: TaskIdView, ids: Seq<TaskIdView>)
    ensures
        read_id(json) == Some(id) <==> says_id(json, id),
        read_ids(json) == Some(ids) <==> says_ids(json, ids),
{
    if let JsonView::List(items) = json {
        let read = Seq::new(items.len(), |i: int| read_id(items[i]));
        if says_ids(json, ids) {
            assert forall|i: int| 0 <= i < read.len() implies (#[trigger] read[i]) is Some by {
                assert(says_id(items[i], ids[i]));
            }
            assert(read_ids(json)->0 =~= ids) by {
                assert forall|i: int| 0 <= i < ids.len() implies #[trigger] read_ids(json)->0[i] == ids[i] by {
                    assert(says_id(items[i], ids[i]));
                    assert(read[i] == Some(ids[i]));
                }
            }
        }
        if read_ids(json) == Some(ids) {
            assert forall|i: int| 0 <= i < ids.len() implies says_id(#[trigger] items[i], ids[i]) by {
                assert(read[i] is Some);
                assert(ids[i] == read[i]->0);
            }
        }
    }
}

proof fn texts_are_read(json: JsonView, texts: Seq<Seq<char>>)
    ensures
        read_texts(json) == Some(texts) <==> says_texts(json, texts),
{
    if let JsonView::List(items) = json {
        let read = Seq::new(items.len(), |i: int| read_text(items[i]));
        if says_texts(json, texts) {
            assert forall|i: int| 0 <= i < read.len() implies (#[trigger] read[i]) is Some by {
                assert(items[i] == JsonView::Text(texts[i]));
            }
            assert(read_texts(json)->0 =~= texts) by {
                assert forall|i: int| 0 <= i < texts.len() implies #[trigger] read_texts(json)->0[i] == texts[i] by {
                    assert(items[i] == JsonView::Text(texts[i]));
                    assert(read[i] == Some(texts[i]));
                }
            }
        }
        if read_texts(json) == Some(texts) {
            assert forall|i: int| 0 <= i < texts.len() implies (#[trigger] items[i]) == JsonView::Text(texts[i]) by {
                assert(read[i] is Some);
                assert(texts[i] == read[i]->0);
            }
        }
    }
}

/// Claims and escalations are read exactly from documents that describe them.
pub proof fn claims_and_escalations_are_read(json: JsonView, claim: ClaimView, escalation: EscalationView)
    ensures
        read_claim(json) == Some(claim) <==> says_claim(json, claim),
        read_escalation(json) == Some(escalation) <==> says_escalation(json, escalation),
{
    if let Some(options) = json_field(json, "options"@) {
        texts_are_read(options, escalation.options);
    }
}

/// A task is read exactly from documents that describe it.
pub proof fn tasks_are_read(json: JsonView, task: TaskView)
    ensures
        read_task(json) == Some(task) <==> says_task(json, task),
{
    let none = TaskIdView::Number(0);
    if let Some(id) = json_field(json, "id"@) {
        ids_are_read(id, task.id, Seq::empty());
    }
    if let Some(deps) = json_field(json, "deps"@) {
        ids_are_read(deps, none, task.deps);
    }
    if let Some(origin) = json_field(json, "discoveredFrom"@) {
        if let Some(id) = task.discovered_from {
            ids_are_read(origin, id, Seq::empty());
        }
    }
    if let Some(inner) = json_field(json, "claim"@) {
        if let Some(claim) = task.claim {
            claims_and_escalations_are_read(inner, claim, EscalationView { fork: Seq::empty(), options: Seq::empty() });
        }
    }
    if let Some(inner) = json_field(json, "escalation"@) {
        if let Some(escalation) = task.escalation {
            claims_and_escalations_are_read(inner, ClaimView { by: Seq::empty(), at: Seq::empty() }, escalation);
        }
    }
    if read_task(json) == Some(task) {
        assert(says_task(json, task));
    }
    if says_task(json, task) {
        let read = read_task(json);
        assert(read is Some);
        assert(read->0 == task);
    }
}

proof fn task_lists_are_read(json: JsonView, tasks: Seq<TaskView>)
    ensures
        read_tasks(json) == Some(tasks) <==> (json matches JsonView::List(items) && items.len() == tasks.len() && forall|i: int|
            0 <= i < items.len() ==> says_task(#[trigger] items[i], tasks[i])),
{
    if let JsonView::List(items) = json {
        let read = Seq::new(items.len(), |i: int| read_task(items[i]));
        if items.len() == tasks.len() && (forall|i: int| 0 <= i < items.len() ==> says_task(#[trigger] items[i], tasks[i])) {
            assert forall|i: int| 0 <= i < read.len() implies (#[trigger] read[i]) == Some(tasks[i]) by {
                assert(says_task(items[i], tasks[i]));
                tasks_are_read(items[i], tasks[i]);
            }
            assert(read_tasks(json)->0 =~= tasks);
        }
        if read_tasks(json) == Some(tasks) {
            assert forall|i: int| 0 <= i < items.len() implies says_task(#[trigger] items[i], tasks[i]) by {
                assert(read[i] is Some);
                assert(tasks[i] == read[i]->0);
                tasks_are_read(items[i], tasks[i]);
            }
        }
    }
}

/// A snapshot is read exactly from documents that describe it.
pub proof fn snapshots_are_read(json: JsonView, snapshot: SnapshotView)
    ensures
        read_snapshot(json) == Some(snapshot) <==> says_snapshot(json, snapshot),
{
    reveal_strlit("lite");
    reveal_strlit("full");
    assert("lite"@[0] != "full"@[0]);
    if let Some(tasks) = json_field(json, "tasks"@) {
        task_lists_are_read(tasks, snapshot.tasks);
    }
    if says_snapshot(json, snapshot) {
        assert(read_snapshot(json) is Some);
        assert(read_snapshot(json)->0 == snapshot);
    }
}

/// What is shown of a project is read exactly from documents that describe it.
pub proof fn projections_are_read(json: JsonView, projection: ProjectionView)
    ensures
        read_projection(json) == Some(projection) <==> says_projection(json, projection),
{
    snapshots_are_read(json, projection.snapshot);
    if let Some(degraded) = json_field(json, "degraded"@) {
        texts_are_read(degraded, projection.degraded);
    }
    if says_projection(json, projection) {
        assert(read_projection(json) is Some);
        assert(read_projection(json)->0 == projection);
    }
}

/// A registration is read exactly from documents that register it.
pub proof fn registrations_are_read(json: JsonView, record: RecordView)
    ensures
        read_record(json) == Some(record) <==> says_record(json, record),
{
    if let Some(cook) = json_field(json, "cook"@) {
        if let Some(command) = record.cook {
            texts_are_read(cook, command);
        }
    }
    if says_record(json, record) {
        assert(read_record(json) is Some);
        assert(read_record(json)->0 == record);
    }
}

// ---------------------------------------------------------------------------
// Writing

/// What is written says what it is about.
pub proof fn written_documents_say_what_they_are_about(task: TaskView, snapshot: SnapshotView, projection: ProjectionView, record: RecordView)
    ensures
        says_task(task_json(task), task),
        says_snapshot(snapshot_json(snapshot), snapshot),
        says_projection(projection_json(projection), projection),
        says_record(record_json(record), record),
{
    task_reads_back(task);
    tasks_are_read(task_json(task), task);
    snapshot_reads_back(snapshot);
    snapshots_are_read(snapshot_json(snapshot), snapshot);
    projection_reads_back(projection);
    projections_are_read(projection_json(projection), projection);
    record_reads_back(record);
    registrations_are_read(record_json(record), record);
}

/// What a task, a snapshot or a registration does not have is left out of its
/// document altogether, and not written as null.
pub proof fn what_is_not_there_is_not_written(task: TaskView, snapshot: SnapshotView, record: RecordView)
    ensures
        task.category is None ==> json_field(task_json(task), "category"@) is None,
        task.discovered_from is None ==> json_field(task_json(task), "discoveredFrom"@) is None,
        task.claim is None ==> json_field(task_json(task), "claim"@) is None,
        task.escalation is None ==> json_field(task_json(task), "escalation"@) is None,
        snapshot.max_parallel_tasks is None ==> json_field(snapshot_json(snapshot), "maxParallelTasks"@) is None,
        record.cook is None ==> json_field(record_json(record), "cook"@) is None,
{
    reveal_strlit("id");
    reveal_strlit("slug");
    reveal_strlit("title");
    reveal_strlit("status");
    reveal_strlit("stage");
    reveal_strlit("priority");
    reveal_strlit("deps");
    reveal_strlit("blockedReason");
    reveal_strlit("category");
    reveal_strlit("discoveredFrom");
    reveal_strlit("claim");
    reveal_strlit("escalation");
    reveal_strlit("schemaVersion");
    reveal_strlit("generatedAt");
    reveal_strlit("mode");
    reveal_strlit("tasks");
    reveal_strlit("maxParallelTasks");
    reveal_strlit("path");
    reveal_strlit("name");
    reveal_strlit("enabled");
    reveal_strlit("cook");
    assert("id"@.len() == 2 && "slug"@.len() == 4 && "title"@.len() == 5 && "status"@.len() == 6 && "stage"@.len() == 5
        && "priority"@.len() == 8 && "deps"@.len() == 4 && "blockedReason"@.len() == 13 && "category"@.len() == 8
        && "discoveredFrom"@.len() == 14 && "claim"@.len() == 5 && "escalation"@.len() == 10);
    assert("category"@[0] != "priority"@[0]);
    assert("claim"@[0] != "title"@[0] && "claim"@[0] != "stage"@[0]);
    assert("schemaVersion"@.len() == 13 && "generatedAt"@.len() == 11 && "mode"@.len() == 4 && "tasks"@.len() == 5
        && "maxParallelTasks"@.len() == 16);
    assert("path"@.len() == 4 && "name"@.len() == 4 && "enabled"@.len() == 7 && "cook"@.len() == 4);
    assert("cook"@[0] != "path"@[0] && "cook"@[0] != "name"@[0]);
}

// ---------------------------------------------------------------------------
// Snapshots of other versions

/// A document that describes a snapshot of version 1 is that snapshot. One of
/// an older or newer version is refused for its version, whatever else it
/// holds, and one without a version, or that lacks something, is malformed.
pub proof fn only_version_one_is_read(json: JsonView, version: u64, snapshot: SnapshotView, problem: Seq<char>)
    ensures
        says_snapshot(json, snapshot) && snapshot.schema_version == 1 ==> snapshot_outcome(Ok(json)) == Ok::<
            SnapshotView,
            SnapshotErrorView,
        >(snapshot),
        json_field(json, "schemaVersion"@) == Some(JsonView::Unsigned(version)) && version < 1 ==> snapshot_outcome(Ok(json)) == Err::<
            SnapshotView,
            SnapshotErrorView,
        >(SnapshotErrorView::SchemaTooOld { found: version, minimum: 1 }),
        json_field(json, "schemaVersion"@) == Some(JsonView::Unsigned(version)) && version > 1 ==> snapshot_outcome(Ok(json)) == Err::<
            SnapshotView,
            SnapshotErrorView,
        >(SnapshotErrorView::SchemaTooNew { found: version, maximum: 1 }),
        !(json_field(json, "schemaVersion"@) matches Some(JsonView::Unsigned(_))) ==> snapshot_outcome(Ok(json)) == Err::<
            SnapshotView,
            SnapshotErrorView,
        >(SnapshotErrorView::Malformed("missing or invalid field `schemaVersion`"@)),
        json_field(json, "schemaVersion"@) == Some(JsonView::Unsigned(1)) && (forall|s: SnapshotView| !#[trigger] says_snapshot(json, s))
            ==> snapshot_outcome(Ok(json)) == Err::<SnapshotView, SnapshotErrorView>(
            SnapshotErrorView::Malformed("missing or invalid required field"@),
        ),
        snapshot_outcome(Err(problem)) == Err::<SnapshotView, SnapshotErrorView>(SnapshotErrorView::Malformed(problem)),
        schema_refusal(version) is None <==> version == 1,
{
    snapshots_are_read(json, snapshot);
    if let Some(read) = read_snapshot(json) {
        snapshots_are_read(json, read);
        assert(says_snapshot(json, read));
    }
}

/// What an operator is told of a snapshot that cannot be read: what is wrong
/// with it, and what to upgrade.
pub proof fn unreadable_snapshots_say_what_to_upgrade(found: u64, bound: u64, problem: Seq<char>)
    ensures
        snapshot_error_text(SnapshotErrorView::Malformed(problem)) == "invalid snapshot: "@ + problem,
        snapshot_error_text(SnapshotErrorView::SchemaTooOld { found, minimum: bound }) == "snapshot schema version "@ + decimal_text(
            found as nat,
        ) + " is older than supported minimum "@ + decimal_text(bound as nat) + "; upgrade project jeff"@,
        snapshot_error_text(SnapshotErrorView::SchemaTooNew { found, maximum: bound }) == "snapshot schema version "@ + decimal_text(
            found as nat,
        ) + " is newer than supported maximum "@ + decimal_text(bound as nat) + "; upgrade jeffd"@,
{
}

} // verus!
