//! The JSON forms of the project model.

use crate::json::{json_field, json_parsed, parse_json, parse_view, Json, JsonObject, JsonView};
use crate::project::{Claim, ClaimView, Escalation, EscalationView, GraphProjection, ProjectMode,
    ProjectRecord, ProjectionView, RecordView, Snapshot, SnapshotTask, SnapshotView, TaskId,
    TaskIdView, TaskView};
use crate::text::{decimal, decimal_text, joined, same_text};
use crate::views::{all_of, option_view, views};
use vstd::prelude::*;
use vstd::utf8::encode_utf8;

verus! {

/// The oldest snapshot schema that can be read.
pub const SNAPSHOT_SCHEMA_MIN: u64 = 1;

/// The newest snapshot schema that can be read.
pub const SNAPSHOT_SCHEMA_MAX: u64 = 1;

// ---------------------------------------------------------------------------
// Texts and lists

/// A text, or nothing for any other document.
pub open spec fn read_text(json: JsonView) -> Option<Seq<char>> {
    match json {
        JsonView::Text(text) => Some(text),
        _ => None,
    }
}

pub open spec fn read_unsigned(json: JsonView) -> Option<u64> {
    match json {
        JsonView::Unsigned(number) => Some(number),
        _ => None,
    }
}

pub open spec fn read_bool(json: JsonView) -> Option<bool> {
    match json {
        JsonView::Bool(truth) => Some(truth),
        _ => None,
    }
}

/// A field that must be there.
pub open spec fn required<T>(json: JsonView, key: Seq<char>, read: spec_fn(JsonView) -> Option<T>) -> Option<T> {
    match json_field(json, key) {
        Some(value) => read(value),
        None => None,
    }
}

/// A field that may be missing or null.
pub open spec fn optional<T>(json: JsonView, key: Seq<char>, read: spec_fn(JsonView) -> Option<T>) -> Option<Option<T>> {
    match json_field(json, key) {
        None => Some(None),
        Some(JsonView::Null) => Some(None),
        Some(value) => match read(value) {
            Some(inner) => Some(Some(inner)),
            None => None,
        },
    }
}

/// A field that must be there and may be null.
pub open spec fn nullable<T>(json: JsonView, key: Seq<char>, read: spec_fn(JsonView) -> Option<T>) -> Option<Option<T>> {
    match json_field(json, key) {
        None => None,
        Some(JsonView::Null) => Some(None),
        Some(value) => match read(value) {
            Some(inner) => Some(Some(inner)),
            None => None,
        },
    }
}

pub open spec fn read_texts(json: JsonView) -> Option<Seq<Seq<char>>> {
    match json {
        JsonView::List(items) => all_of(Seq::new(items.len(), |i: int| read_text(items[i]))),
        _ => None,
    }
}

pub open spec fn texts_json(texts: Seq<Seq<char>>) -> JsonView {
    JsonView::List(Seq::new(texts.len(), |i: int| JsonView::Text(texts[i])))
}

/// A list of texts as a document.
pub fn texts_to_json(texts: &Vec<String>) -> (json: Json)
    ensures
        json@ == texts_json(views(texts@)),
{
    let mut items: Vec<Json> = Vec::new();
    let mut i: usize = 0;
    while i < texts.len()
        invariant
            i <= texts@.len(),
            items@.len() == i,
            forall|j: int| 0 <= j < i ==> (#[trigger] items@[j])@ == JsonView::Text(texts@[j]@),
        decreases texts@.len() - i,
    {
        items.push(Json::text(texts[i].as_str()));
        i += 1;
    }
    assert(views(items@) =~= texts_json(views(texts@))->List_0);
    Json::list(items)
}

fn texts_from_json(json: &Json) -> (texts: Option<Vec<String>>)
    ensures
        match texts { Some(list) => Some(views(list@)), None => None::<Seq<Seq<char>>> } == read_texts(json@),
{
    match json.as_list() {
        None => None,
        Some(items) => {
            let ghost read = Seq::new(views(items@).len(), |i: int| read_text(views(items@)[i]));
            let mut texts: Vec<String> = Vec::new();
            let mut i: usize = 0;
            while i < items.len()
                invariant
                    i <= items@.len(),
                    json@ == JsonView::List(views(items@)),
                    read == Seq::new(views(items@).len(), |i: int| read_text(views(items@)[i])),
                    texts@.len() == i,
                    forall|j: int| 0 <= j < i ==> #[trigger] read[j] == Some(texts@[j]@),
                decreases items@.len() - i,
            {
                match items[i].as_text() {
                    None => {
                        assert(read[i as int] is None);
                        return None;
                    },
                    Some(text) => {
                        texts.push(text.clone());
                    },
                }
                i += 1;
            }
            assert(views(texts@) =~= all_of(read)->0);
            Some(texts)
        },
    }
}

proof fn texts_read_back(texts: Seq<Seq<char>>)
    ensures
        read_texts(texts_json(texts)) == Some(texts),
{
    let items = texts_json(texts)->List_0;
    let read = Seq::new(items.len(), |i: int| read_text(items[i]));
    assert(read_texts(texts_json(texts))->0 =~= texts);
}

// ---------------------------------------------------------------------------
// Task ids

pub open spec fn read_id(json: JsonView) -> Option<TaskIdView> {
    match json {
        JsonView::Unsigned(number) => Some(TaskIdView::Number(number)),
        JsonView::Text(text) => Some(TaskIdView::String(text)),
        _ => None,
    }
}

pub open spec fn id_json(id: TaskIdView) -> JsonView {
    match id {
        TaskIdView::Number(number) => JsonView::Unsigned(number),
        TaskIdView::String(text) => JsonView::Text(text),
    }
}

pub open spec fn read_ids(json: JsonView) -> Option<Seq<TaskIdView>> {
    match json {
        JsonView::List(items) => all_of(Seq::new(items.len(), |i: int| read_id(items[i]))),
        _ => None,
    }
}

pub open spec fn ids_json(ids: Seq<TaskIdView>) -> JsonView {
    JsonView::List(Seq::new(ids.len(), |i: int| id_json(ids[i])))
}

impl TaskId {
    pub fn from_json(json: &Json) -> (id: Option<TaskId>)
        ensures
            option_view(id) == read_id(json@),
    {
        match json.as_unsigned() {
            Some(number) => Some(TaskId::Number(number)),
            None => match json.as_text() {
                Some(text) => Some(TaskId::String(text.clone())),
                None => None,
            },
        }
    }

    pub fn to_json(&self) -> (json: Json)
        ensures
            json@ == id_json(self@),
    {
        match self {
            TaskId::Number(number) => Json::unsigned(*number),
            TaskId::String(text) => Json::text(text.as_str()),
        }
    }
}

fn ids_to_json(ids: &Vec<TaskId>) -> (json: Json)
    ensures
        json@ == ids_json(views(ids@)),
{
    let mut items: Vec<Json> = Vec::new();
    let mut i: usize = 0;
    while i < ids.len()
        invariant
            i <= ids@.len(),
            items@.len() == i,
            forall|j: int| 0 <= j < i ==> (#[trigger] items@[j])@ == id_json(ids@[j]@),
        decreases ids@.len() - i,
    {
        items.push(ids[i].to_json());
        i += 1;
    }
    assert(views(items@) =~= ids_json(views(ids@))->List_0);
    Json::list(items)
}

fn ids_from_json(json: &Json) -> (ids: Option<Vec<TaskId>>)
    ensures
        match ids { Some(list) => Some(views(list@)), None => None::<Seq<TaskIdView>> } == read_ids(json@),
{
    match json.as_list() {
        None => None,
        Some(items) => {
            let ghost read = Seq::new(views(items@).len(), |i: int| read_id(views(items@)[i]));
            let mut ids: Vec<TaskId> = Vec::new();
            let mut i: usize = 0;
            while i < items.len()
                invariant
                    i <= items@.len(),
                    json@ == JsonView::List(views(items@)),
                    read == Seq::new(views(items@).len(), |i: int| read_id(views(items@)[i])),
                    ids@.len() == i,
                    forall|j: int| 0 <= j < i ==> #[trigger] read[j] == Some(ids@[j]@),
                decreases items@.len() - i,
            {
                match TaskId::from_json(&items[i]) {
                    None => {
                        assert(read[i as int] is None);
                        return None;
                    },
                    Some(id) => {
                        ids.push(id);
                    },
                }
                i += 1;
            }
            assert(views(ids@) =~= all_of(read)->0);
            Some(ids)
        },
    }
}

proof fn ids_read_back(ids: Seq<TaskIdView>)
    ensures
        read_ids(ids_json(ids)) == Some(ids),
{
    assert(read_ids(ids_json(ids))->0 =~= ids);
}

// ---------------------------------------------------------------------------
// Claims and escalations

pub open spec fn read_claim(json: JsonView) -> Option<ClaimView> {
    match (required(json, "by"@, |v: JsonView| read_text(v)), required(json, "at"@, |v: JsonView| read_text(v))) {
        (Some(by), Some(at)) => Some(ClaimView { by, at }),
        _ => None,
    }
}

pub open spec fn claim_json(claim: ClaimView) -> JsonView {
    JsonView::Object(
        Map::empty().insert("by"@, JsonView::Text(claim.by)).insert("at"@, JsonView::Text(claim.at)),
    )
}

fn required_text(json: &Json, key: &str) -> (text: Option<String>)
    ensures
        option_view(text) == required(json@, key@, |v: JsonView| read_text(v)),
{
    match json.field(key) {
        Some(value) => match value.as_text() {
            Some(text) => Some(text.clone()),
            None => None,
        },
        None => None,
    }
}

impl Claim {
    pub fn from_json(json: &Json) -> (claim: Option<Claim>)
        ensures
            option_view(claim) == read_claim(json@),
    {
        match (required_text(json, "by"), required_text(json, "at")) {
            (Some(by), Some(at)) => Some(Claim { by, at }),
            _ => None,
        }
    }

    pub fn to_json(&self) -> (json: Json)
        ensures
            json@ == claim_json(self@),
    {
        JsonObject::new().with("by", Json::text(self.by.as_str())).with(
            "at",
            Json::text(self.at.as_str()),
        ).done()
    }
}

proof fn claim_reads_back(claim: ClaimView)
    ensures
        read_claim(claim_json(claim)) == Some(claim),
{
    reveal_strlit("by");
    assert("by"@.len() == 2);
    reveal_strlit("at");
    assert("at"@.len() == 2);
    assert("by"@[0] != "at"@[0]);
}

pub open spec fn read_escalation(json: JsonView) -> Option<EscalationView> {
    match (required(json, "fork"@, |v: JsonView| read_text(v)), required(json, "options"@, |v: JsonView| read_texts(v))) {
        (Some(fork), Some(options)) => Some(EscalationView { fork, options }),
        _ => None,
    }
}

pub open spec fn escalation_json(escalation: EscalationView) -> JsonView {
    JsonView::Object(
        Map::empty().insert("fork"@, JsonView::Text(escalation.fork)).insert(
            "options"@,
            texts_json(escalation.options),
        ),
    )
}

impl Escalation {
    pub fn from_json(json: &Json) -> (escalation: Option<Escalation>)
        ensures
            option_view(escalation) == read_escalation(json@),
    {
        let fork = required_text(json, "fork");
        let options = match json.field("options") {
            Some(value) => texts_from_json(value),
            None => None,
        };
        match (fork, options) {
            (Some(fork), Some(options)) => Some(Escalation { fork, options }),
            _ => None,
        }
    }

    pub fn to_json(&self) -> (json: Json)
        ensures
            json@ == escalation_json(self@),
    {
        JsonObject::new().with("fork", Json::text(self.fork.as_str())).with(
            "options",
            texts_to_json(&self.options),
        ).done()
    }
}

proof fn escalation_reads_back(escalation: EscalationView)
    ensures
        read_escalation(escalation_json(escalation)) == Some(escalation),
{
    reveal_strlit("fork");
    assert("fork"@.len() == 4);
    reveal_strlit("options");
    assert("options"@.len() == 7);
    texts_read_back(escalation.options);
    assert("fork"@.len() != "options"@.len());
}

// ---------------------------------------------------------------------------
// Tasks

/// The task that a document describes; fields it does not know are ignored.
pub open spec fn read_task(json: JsonView) -> Option<TaskView> {
    let text = |v: JsonView| read_text(v);
    match (
        required(json, "id"@, |v: JsonView| read_id(v)),
        required(json, "slug"@, text),
        required(json, "title"@, text),
        required(json, "status"@, text),
        required(json, "stage"@, text),
        required(json, "priority"@, text),
    ) {
        (Some(id), Some(slug), Some(title), Some(status), Some(stage), Some(priority)) => match (
            required(json, "deps"@, |v: JsonView| read_ids(v)),
            nullable(json, "blockedReason"@, text),
            optional(json, "category"@, text),
            optional(json, "discoveredFrom"@, |v: JsonView| read_id(v)),
            optional(json, "claim"@, |v: JsonView| read_claim(v)),
            optional(json, "escalation"@, |v: JsonView| read_escalation(v)),
        ) {
            (
                Some(deps),
                Some(blocked_reason),
                Some(category),
                Some(discovered_from),
                Some(claim),
                Some(escalation),
            ) => Some(
                TaskView {
                    id,
                    slug,
                    title,
                    status,
                    stage,
                    priority,
                    deps,
                    blocked_reason,
                    category,
                    discovered_from,
                    claim,
                    escalation,
                },
            ),
            _ => None,
        },
        _ => None,
    }
}

/// `fields` with `key` set, if there is a value for it.
pub open spec fn with_some(fields: Map<Seq<char>, JsonView>, key: Seq<char>, value: Option<JsonView>) -> Map<Seq<char>, JsonView> {
    match value {
        Some(json) => fields.insert(key, json),
        None => fields,
    }
}

pub open spec fn text_or_null(text: Option<Seq<char>>) -> JsonView {
    match text {
        Some(value) => JsonView::Text(value),
        None => JsonView::Null,
    }
}

pub open spec fn task_fields(task: TaskView) -> Map<Seq<char>, JsonView> {
    let fields = Map::empty()
        .insert("id"@, id_json(task.id))
        .insert("slug"@, JsonView::Text(task.slug))
        .insert("title"@, JsonView::Text(task.title))
        .insert("status"@, JsonView::Text(task.status))
        .insert("stage"@, JsonView::Text(task.stage))
        .insert("priority"@, JsonView::Text(task.priority))
        .insert("deps"@, ids_json(task.deps))
        .insert("blockedReason"@, text_or_null(task.blocked_reason));
    let fields = with_some(fields, "category"@, match task.category {
        Some(text) => Some(JsonView::Text(text)),
        None => None,
    });
    let fields = with_some(fields, "discoveredFrom"@, match task.discovered_from {
        Some(id) => Some(id_json(id)),
        None => None,
    });
    let fields = with_some(fields, "claim"@, match task.claim {
        Some(claim) => Some(claim_json(claim)),
        None => None,
    });
    with_some(fields, "escalation"@, match task.escalation {
        Some(escalation) => Some(escalation_json(escalation)),
        None => None,
    })
}

pub open spec fn task_json(task: TaskView) -> JsonView {
    JsonView::Object(task_fields(task))
}

impl SnapshotTask {
    pub fn from_json(json: &Json) -> (task: Option<SnapshotTask>)
        ensures
            option_view(task) == read_task(json@),
    {
        let id = match json.field("id") {
            Some(value) => TaskId::from_json(value),
            None => None,
        };
        let slug = required_text(json, "slug");
        let title = required_text(json, "title");
        let status = required_text(json, "status");
        let stage = required_text(json, "stage");
        let priority = required_text(json, "priority");
        let deps = match json.field("deps") {
            Some(value) => ids_from_json(value),
            None => None,
        };
        let blocked_reason: Option<Option<String>> = match json.field("blockedReason") {
            None => None,
            Some(value) => if value.is_null() {
                Some(None)
            } else {
                match value.as_text() {
                    Some(text) => Some(Some(text.clone())),
                    None => None,
                }
            },
        };
        let category: Option<Option<String>> = match json.field("category") {
            None => Some(None),
            Some(value) => if value.is_null() {
                Some(None)
            } else {
                match value.as_text() {
                    Some(text) => Some(Some(text.clone())),
                    None => None,
                }
            },
        };
        let discovered_from: Option<Option<TaskId>> = match json.field("discoveredFrom") {
            None => Some(None),
            Some(value) => if value.is_null() {
                Some(None)
            } else {
                match TaskId::from_json(value) {
                    Some(origin) => Some(Some(origin)),
                    None => None,
                }
            },
        };
        let claim: Option<Option<Claim>> = match json.field("claim") {
            None => Some(None),
            Some(value) => if value.is_null() {
                Some(None)
            } else {
                match Claim::from_json(value) {
                    Some(inner) => Some(Some(inner)),
                    None => None,
                }
            },
        };
        let escalation: Option<Option<Escalation>> = match json.field("escalation") {
            None => Some(None),
            Some(value) => if value.is_null() {
                Some(None)
            } else {
                match Escalation::from_json(value) {
                    Some(inner) => Some(Some(inner)),
                    None => None,
                }
            },
        };
        match (id, slug, title, status, stage, priority) {
            (Some(id), Some(slug), Some(title), Some(status), Some(stage), Some(priority)) => match (
                deps,
                blocked_reason,
                category,
                discovered_from,
                claim,
                escalation,
            ) {
                (
                    Some(deps),
                    Some(blocked_reason),
                    Some(category),
                    Some(discovered_from),
                    Some(claim),
                    Some(escalation),
                ) => Some(
                    SnapshotTask {
                        id,
                        slug,
                        title,
                        status,
                        stage,
                        priority,
                        deps,
                        blocked_reason,
                        category,
                        discovered_from,
                        claim,
                        escalation,
                    },
                ),
                _ => None,
            },
            _ => None,
        }
    }

    pub fn to_json(&self) -> (json: Json)
        ensures
            json@ == task_json(self@),
    {
        let blocked = match &self.blocked_reason {
            Some(text) => Json::text(text.as_str()),
            None => Json::Null,
        };
        let category = match &self.category {
            Some(text) => Some(Json::text(text.as_str())),
            None => None,
        };
        let origin = match &self.discovered_from {
            Some(id) => Some(id.to_json()),
            None => None,
        };
        let claim = match &self.claim {
            Some(claim) => Some(claim.to_json()),
            None => None,
        };
        let escalation = match &self.escalation {
            Some(escalation) => Some(escalation.to_json()),
            None => None,
        };
        JsonObject::new()
            .with("id", self.id.to_json())
            .with("slug", Json::text(self.slug.as_str()))
            .with("title", Json::text(self.title.as_str()))
            .with("status", Json::text(self.status.as_str()))
            .with("stage", Json::text(self.stage.as_str()))
            .with("priority", Json::text(self.priority.as_str()))
            .with("deps", ids_to_json(&self.deps))
            .with("blockedReason", blocked)
            .with_some("category", category)
            .with_some("discoveredFrom", origin)
            .with_some("claim", claim)
            .with_some("escalation", escalation)
            .done()
    }
}

/// A task read from its own JSON form is the same task.
pub proof fn task_reads_back(task: TaskView)
    ensures
        read_task(task_json(task)) == Some(task),
{
    reveal_strlit("id");
    assert("id"@.len() == 2);
    reveal_strlit("slug");
    assert("slug"@.len() == 4);
    reveal_strlit("title");
    assert("title"@.len() == 5);
    reveal_strlit("status");
    assert("status"@.len() == 6);
    reveal_strlit("stage");
    assert("stage"@.len() == 5);
    reveal_strlit("priority");
    assert("priority"@.len() == 8);
    reveal_strlit("deps");
    assert("deps"@.len() == 4);
    reveal_strlit("blockedReason");
    assert("blockedReason"@.len() == 13);
    reveal_strlit("category");
    assert("category"@.len() == 8);
    reveal_strlit("discoveredFrom");
    assert("discoveredFrom"@.len() == 14);
    reveal_strlit("claim");
    assert("claim"@.len() == 5);
    reveal_strlit("escalation");
    assert("escalation"@.len() == 10);
    assert("slug"@[0] != "deps"@[0]);
    assert("title"@[0] != "stage"@[0]);
    assert("title"@[0] != "claim"@[0]);
    assert("stage"@[0] != "claim"@[0]);
    assert("priority"@[0] != "category"@[0]);
    ids_read_back(task.deps);
    match task.claim {
        Some(claim) => {
            claim_reads_back(claim);
        },
        None => {},
    }
    match task.escalation {
        Some(escalation) => {
            escalation_reads_back(escalation);
        },
        None => {},
    }
}

// ---------------------------------------------------------------------------
// Snapshots

pub open spec fn read_mode(json: JsonView) -> Option<ProjectMode> {
    match json {
        JsonView::Text(text) => if text == "lite"@ {
            Some(ProjectMode::Lite)
        } else if text == "full"@ {
            Some(ProjectMode::Full)
        } else {
            None
        },
        _ => None,
    }
}

pub open spec fn mode_json(mode: ProjectMode) -> JsonView {
    match mode {
        ProjectMode::Lite => JsonView::Text("lite"@),
        ProjectMode::Full => JsonView::Text("full"@),
    }
}

pub open spec fn read_tasks(json: JsonView) -> Option<Seq<TaskView>> {
    match json {
        JsonView::List(items) => all_of(Seq::new(items.len(), |i: int| read_task(items[i]))),
        _ => None,
    }
}

pub open spec fn tasks_json(tasks: Seq<TaskView>) -> JsonView {
    JsonView::List(Seq::new(tasks.len(), |i: int| task_json(tasks[i])))
}

/// The snapshot that a document describes; fields it does not know are ignored.
pub open spec fn read_snapshot(json: JsonView) -> Option<SnapshotView> {
    match (
        required(json, "schemaVersion"@, |v: JsonView| read_unsigned(v)),
        required(json, "generatedAt"@, |v: JsonView| read_text(v)),
        required(json, "mode"@, |v: JsonView| read_mode(v)),
        optional(json, "maxParallelTasks"@, |v: JsonView| read_unsigned(v)),
        required(json, "tasks"@, |v: JsonView| read_tasks(v)),
    ) {
        (Some(schema_version), Some(generated_at), Some(mode), Some(max_parallel_tasks), Some(tasks)) => Some(
            SnapshotView { schema_version, generated_at, mode, max_parallel_tasks, tasks },
        ),
        _ => None,
    }
}

/// The fields of a snapshot, added to those that are there.
pub open spec fn snapshot_fields(fields: Map<Seq<char>, JsonView>, snapshot: SnapshotView) -> Map<Seq<char>, JsonView> {
    with_some(
        fields
            .insert("schemaVersion"@, JsonView::Unsigned(snapshot.schema_version))
            .insert("generatedAt"@, JsonView::Text(snapshot.generated_at))
            .insert("mode"@, mode_json(snapshot.mode))
            .insert("tasks"@, tasks_json(snapshot.tasks)),
        "maxParallelTasks"@,
        match snapshot.max_parallel_tasks {
            Some(number) => Some(JsonView::Unsigned(number)),
            None => None,
        },
    )
}

pub open spec fn snapshot_json(snapshot: SnapshotView) -> JsonView {
    JsonView::Object(snapshot_fields(Map::empty(), snapshot))
}

impl ProjectMode {
    pub fn from_json(json: &Json) -> (mode: Option<ProjectMode>)
        ensures
            mode == read_mode(json@),
    {
        match json.as_text() {
            Some(text) => if same_text(text.as_str(), "lite") {
                Some(ProjectMode::Lite)
            } else if same_text(text.as_str(), "full") {
                Some(ProjectMode::Full)
            } else {
                None
            },
            None => None,
        }
    }

    pub fn to_json(&self) -> (json: Json)
        ensures
            json@ == mode_json(*self),
    {
        match self {
            ProjectMode::Lite => Json::text("lite"),
            ProjectMode::Full => Json::text("full"),
        }
    }
}

fn tasks_to_json(tasks: &Vec<SnapshotTask>) -> (json: Json)
    ensures
        json@ == tasks_json(views(tasks@)),
{
    let mut items: Vec<Json> = Vec::new();
    let mut i: usize = 0;
    while i < tasks.len()
        invariant
            i <= tasks@.len(),
            items@.len() == i,
            forall|j: int| 0 <= j < i ==> (#[trigger] items@[j])@ == task_json(tasks@[j]@),
        decreases tasks@.len() - i,
    {
        items.push(tasks[i].to_json());
        i += 1;
    }
    assert(views(items@) =~= tasks_json(views(tasks@))->List_0);
    Json::list(items)
}

fn tasks_from_json(json: &Json) -> (tasks: Option<Vec<SnapshotTask>>)
    ensures
        match tasks { Some(list) => Some(views(list@)), None => None::<Seq<TaskView>> } == read_tasks(json@),
{
    match json.as_list() {
        None => None,
        Some(items) => {
            let ghost read = Seq::new(views(items@).len(), |i: int| read_task(views(items@)[i]));
            let mut tasks: Vec<SnapshotTask> = Vec::new();
            let mut i: usize = 0;
            while i < items.len()
                invariant
                    i <= items@.len(),
                    json@ == JsonView::List(views(items@)),
                    read == Seq::new(views(items@).len(), |i: int| read_task(views(items@)[i])),
                    tasks@.len() == i,
                    forall|j: int| 0 <= j < i ==> #[trigger] read[j] == Some(tasks@[j]@),
                decreases items@.len() - i,
            {
                match SnapshotTask::from_json(&items[i]) {
                    None => {
                        assert(read[i as int] is None);
                        return None;
                    },
                    Some(task) => {
                        tasks.push(task);
                    },
                }
                i += 1;
            }
            assert(views(tasks@) =~= all_of(read)->0);
            Some(tasks)
        },
    }
}

fn required_unsigned(json: &Json, key: &str) -> (number: Option<u64>)
    ensures
        number == required(json@, key@, |v: JsonView| read_unsigned(v)),
{
    match json.field(key) {
        Some(value) => value.as_unsigned(),
        None => None,
    }
}

impl Snapshot {
    pub fn from_json(json: &Json) -> (snapshot: Option<Snapshot>)
        ensures
            option_view(snapshot) == read_snapshot(json@),
    {
        let schema_version = required_unsigned(json, "schemaVersion");
        let generated_at = required_text(json, "generatedAt");
        let mode = match json.field("mode") {
            Some(value) => ProjectMode::from_json(value),
            None => None,
        };
        let max_parallel_tasks: Option<Option<u64>> = match json.field("maxParallelTasks") {
            None => Some(None),
            Some(value) => if value.is_null() {
                Some(None)
            } else {
                match value.as_unsigned() {
                    Some(number) => Some(Some(number)),
                    None => None,
                }
            },
        };
        let tasks = match json.field("tasks") {
            Some(value) => tasks_from_json(value),
            None => None,
        };
        match (schema_version, generated_at, mode, max_parallel_tasks, tasks) {
            (Some(schema_version), Some(generated_at), Some(mode), Some(max_parallel_tasks), Some(tasks)) => Some(
                Snapshot { schema_version, generated_at, mode, max_parallel_tasks, tasks },
            ),
            _ => None,
        }
    }

    fn add_fields(&self, object: JsonObject) -> (with_fields: JsonObject)
        ensures
            with_fields@ == snapshot_fields(object@, self@),
    {
        let limit = match self.max_parallel_tasks {
            Some(number) => Some(Json::unsigned(number)),
            None => None,
        };
        object
            .with("schemaVersion", Json::unsigned(self.schema_version))
            .with("generatedAt", Json::text(self.generated_at.as_str()))
            .with("mode", self.mode.to_json())
            .with("tasks", tasks_to_json(&self.tasks))
            .with_some("maxParallelTasks", limit)
    }

    pub fn to_json(&self) -> (json: Json)
        ensures
            json@ == snapshot_json(self@),
    {
        self.add_fields(JsonObject::new()).done()
    }
}

proof fn tasks_read_back(tasks: Seq<TaskView>)
    ensures
        read_tasks(tasks_json(tasks)) == Some(tasks),
{
    let items = tasks_json(tasks)->List_0;
    assert forall|i: int| 0 <= i < tasks.len() implies read_task(#[trigger] items[i]) == Some(tasks[i]) by {
        task_reads_back(tasks[i]);
    }
    assert(read_tasks(tasks_json(tasks))->0 =~= tasks);
}

proof fn snapshot_field_names()
    ensures
        "schemaVersion"@.len() == 13,
        "generatedAt"@.len() == 11,
        "mode"@.len() == 4,
        "maxParallelTasks"@.len() == 16,
        "tasks"@.len() == 5,
        "projectId"@.len() == 9,
        "path"@.len() == 4,
        "degraded"@.len() == 8,
        "mode"@ != "path"@,
        "lite"@ != "full"@,
{
    reveal_strlit("schemaVersion");
    reveal_strlit("generatedAt");
    reveal_strlit("mode");
    reveal_strlit("maxParallelTasks");
    reveal_strlit("tasks");
    reveal_strlit("projectId");
    reveal_strlit("path");
    reveal_strlit("degraded");
    reveal_strlit("lite");
    reveal_strlit("full");
    assert("mode"@[0] != "path"@[0]);
    assert("lite"@[0] != "full"@[0]);
}

/// A snapshot read from its own JSON form is the same snapshot.
pub proof fn snapshot_reads_back(snapshot: SnapshotView)
    ensures
        read_snapshot(snapshot_json(snapshot)) == Some(snapshot),
{
    snapshot_field_names();
    tasks_read_back(snapshot.tasks);
}

/// A snapshot may gain fields that this reader does not know: they change
/// nothing.
pub proof fn snapshot_additions_are_ignored(fields: Map<Seq<char>, JsonView>, key: Seq<char>, value: JsonView)
    requires
        key != "schemaVersion"@,
        key != "generatedAt"@,
        key != "mode"@,
        key != "maxParallelTasks"@,
        key != "tasks"@,
    ensures
        read_snapshot(JsonView::Object(fields.insert(key, value))) == read_snapshot(JsonView::Object(fields)),
{
}

// ---------------------------------------------------------------------------
// Reading a snapshot document

/// Why a snapshot document was turned down.
#[derive(Debug, PartialEq, Eq)]
pub enum SnapshotError {
    Malformed(String),
    SchemaTooOld { found: u64, minimum: u64 },
    SchemaTooNew { found: u64, maximum: u64 },
}

pub enum SnapshotErrorView {
    Malformed(Seq<char>),
    SchemaTooOld { found: u64, minimum: u64 },
    SchemaTooNew { found: u64, maximum: u64 },
}

impl View for SnapshotError {
    type V = SnapshotErrorView;

    open spec fn view(&self) -> SnapshotErrorView {
        match self {
            SnapshotError::Malformed(message) => SnapshotErrorView::Malformed(message@),
            SnapshotError::SchemaTooOld { found, minimum } => SnapshotErrorView::SchemaTooOld {
                found: *found,
                minimum: *minimum,
            },
            SnapshotError::SchemaTooNew { found, maximum } => SnapshotErrorView::SchemaTooNew {
                found: *found,
                maximum: *maximum,
            },
        }
    }
}

/// What an operator is told.
pub open spec fn snapshot_error_text(error: SnapshotErrorView) -> Seq<char> {
    match error {
        SnapshotErrorView::Malformed(message) => "invalid snapshot: "@ + message,
        SnapshotErrorView::SchemaTooOld { found, minimum } => "snapshot schema version "@ + decimal_text(
            found as nat,
        ) + " is older than supported minimum "@ + decimal_text(minimum as nat) + "; upgrade project jeff"@,
        SnapshotErrorView::SchemaTooNew { found, maximum } => "snapshot schema version "@ + decimal_text(
            found as nat,
        ) + " is newer than supported maximum "@ + decimal_text(maximum as nat) + "; upgrade jeffd"@,
    }
}

impl SnapshotError {
    pub fn message(&self) -> (text: String)
        ensures
            text@ == snapshot_error_text(self@),
    {
        match self {
            SnapshotError::Malformed(message) => joined("invalid snapshot: ", message.as_str()),
            SnapshotError::SchemaTooOld { found, minimum } => {
                let mut text = joined("snapshot schema version ", decimal(*found).as_str());
                text.append(" is older than supported minimum ");
                text.append(decimal(*minimum).as_str());
                text.append("; upgrade project jeff");
                text
            },
            SnapshotError::SchemaTooNew { found, maximum } => {
                let mut text = joined("snapshot schema version ", decimal(*found).as_str());
                text.append(" is newer than supported maximum ");
                text.append(decimal(*maximum).as_str());
                text.append("; upgrade jeffd");
                text
            },
        }
    }
}

/// Why this schema version cannot be read, if it cannot.
pub open spec fn schema_refusal(version: u64) -> Option<SnapshotErrorView> {
    if version < SNAPSHOT_SCHEMA_MIN {
        Some(SnapshotErrorView::SchemaTooOld { found: version, minimum: SNAPSHOT_SCHEMA_MIN })
    } else if version > SNAPSHOT_SCHEMA_MAX {
        Some(SnapshotErrorView::SchemaTooNew { found: version, maximum: SNAPSHOT_SCHEMA_MAX })
    } else {
        None
    }
}

/// Accepts the schema versions that can be read.
pub fn check_snapshot_schema(version: u64) -> (r: Result<(), SnapshotError>)
    ensures
        r is Ok == (schema_refusal(version) is None),
        r matches Err(error) ==> schema_refusal(version) == Some(error@),
{
    if version < SNAPSHOT_SCHEMA_MIN {
        Err(SnapshotError::SchemaTooOld { found: version, minimum: SNAPSHOT_SCHEMA_MIN })
    } else if version > SNAPSHOT_SCHEMA_MAX {
        Err(SnapshotError::SchemaTooNew { found: version, maximum: SNAPSHOT_SCHEMA_MAX })
    } else {
        Ok(())
    }
}

/// The outcome of reading a snapshot from what a JSON parser made of it: the
/// schema version is checked before anything else in the document.
pub open spec fn snapshot_outcome(parsed: Result<JsonView, Seq<char>>) -> Result<SnapshotView, SnapshotErrorView> {
    match parsed {
        Err(message) => Err(SnapshotErrorView::Malformed(message)),
        Ok(json) => match required(json, "schemaVersion"@, |v: JsonView| read_unsigned(v)) {
            None => Err(SnapshotErrorView::Malformed("missing or invalid field `schemaVersion`"@)),
            Some(version) => match schema_refusal(version) {
                Some(error) => Err(error),
                None => match read_snapshot(json) {
                    Some(snapshot) => Ok(snapshot),
                    None => Err(SnapshotErrorView::Malformed("missing or invalid required field"@)),
                },
            },
        },
    }
}

/// A result by the views of both sides.
pub open spec fn snapshot_result_view(result: Result<Snapshot, SnapshotError>) -> Result<SnapshotView, SnapshotErrorView> {
    match result {
        Ok(snapshot) => Ok(snapshot@),
        Err(error) => Err(error@),
    }
}

/// Reads a snapshot from a parsed document.
pub fn snapshot_from_document(parsed: Result<Json, String>) -> (result: Result<Snapshot, SnapshotError>)
    ensures
        snapshot_result_view(result) == snapshot_outcome(parse_view(parsed)),
{
    match parsed {
        Err(message) => Err(SnapshotError::Malformed(message)),
        Ok(json) => match required_unsigned(&json, "schemaVersion") {
            None => Err(SnapshotError::Malformed("missing or invalid field `schemaVersion`".to_owned())),
            Some(version) => match check_snapshot_schema(version) {
                Err(error) => Err(error),
                Ok(()) => match Snapshot::from_json(&json) {
                    Some(snapshot) => Ok(snapshot),
                    None => Err(SnapshotError::Malformed("missing or invalid required field".to_owned())),
                },
            },
        },
    }
}

/// Reads a snapshot from the text of one JSON document.
pub fn parse_snapshot(text: &str) -> (result: Result<Snapshot, SnapshotError>)
    ensures
        snapshot_result_view(result) == snapshot_outcome(json_parsed(encode_utf8(text@))),
{
    snapshot_from_document(parse_json(text.as_bytes()))
}

/// Every snapshot that is accepted has a supported schema version.
pub proof fn accepted_snapshots_are_supported(parsed: Result<JsonView, Seq<char>>)
    ensures
        snapshot_outcome(parsed) matches Ok(snapshot) ==> SNAPSHOT_SCHEMA_MIN <= snapshot.schema_version <= SNAPSHOT_SCHEMA_MAX,
{
}

/// A supported snapshot is accepted from its own JSON form, unchanged.
pub proof fn supported_snapshot_is_accepted(snapshot: SnapshotView)
    requires
        SNAPSHOT_SCHEMA_MIN <= snapshot.schema_version <= SNAPSHOT_SCHEMA_MAX,
    ensures
        snapshot_outcome(Ok(snapshot_json(snapshot))) == Ok::<SnapshotView, SnapshotErrorView>(snapshot),
{
    snapshot_reads_back(snapshot);
    snapshot_field_names();
}

// ---------------------------------------------------------------------------
// Graph projections

pub open spec fn read_projection(json: JsonView) -> Option<ProjectionView> {
    match (
        required(json, "projectId"@, |v: JsonView| read_text(v)),
        required(json, "path"@, |v: JsonView| read_text(v)),
        read_snapshot(json),
        required(json, "degraded"@, |v: JsonView| read_texts(v)),
    ) {
        (Some(project_id), Some(path), Some(snapshot), Some(degraded)) => Some(
            ProjectionView { project_id, path, snapshot, degraded },
        ),
        _ => None,
    }
}

pub open spec fn projection_json(projection: ProjectionView) -> JsonView {
    JsonView::Object(
        snapshot_fields(
            Map::empty()
                .insert("projectId"@, JsonView::Text(projection.project_id))
                .insert("path"@, JsonView::Text(projection.path))
                .insert("degraded"@, texts_json(projection.degraded)),
            projection.snapshot,
        ),
    )
}

impl GraphProjection {
    pub fn from_json(json: &Json) -> (projection: Option<GraphProjection>)
        ensures
            option_view(projection) == read_projection(json@),
    {
        let project_id = required_text(json, "projectId");
        let path = required_text(json, "path");
        let snapshot = Snapshot::from_json(json);
        let degraded = match json.field("degraded") {
            Some(value) => texts_from_json(value),
            None => None,
        };
        match (project_id, path, snapshot, degraded) {
            (Some(project_id), Some(path), Some(snapshot), Some(degraded)) => Some(
                GraphProjection { project_id, path, snapshot, degraded },
            ),
            _ => None,
        }
    }

    pub fn to_json(&self) -> (json: Json)
        ensures
            json@ == projection_json(self@),
    {
        let object = JsonObject::new()
            .with("projectId", Json::text(self.project_id.as_str()))
            .with("path", Json::text(self.path.as_str()))
            .with("degraded", texts_to_json(&self.degraded));
        self.snapshot.add_fields(object).done()
    }
}

/// A projection read from its own JSON form is the same projection.
pub proof fn projection_reads_back(projection: ProjectionView)
    ensures
        read_projection(projection_json(projection)) == Some(projection),
{
    snapshot_field_names();
    tasks_read_back(projection.snapshot.tasks);
    texts_read_back(projection.degraded);
}

// ---------------------------------------------------------------------------
// Registry records

pub open spec fn read_record(json: JsonView) -> Option<RecordView> {
    match (
        required(json, "id"@, |v: JsonView| read_text(v)),
        required(json, "path"@, |v: JsonView| read_text(v)),
        required(json, "name"@, |v: JsonView| read_text(v)),
        required(json, "enabled"@, |v: JsonView| read_bool(v)),
        optional(json, "cook"@, |v: JsonView| read_texts(v)),
    ) {
        (Some(id), Some(path), Some(name), Some(enabled), Some(cook)) => Some(
            RecordView { id, path, name, enabled, cook },
        ),
        _ => None,
    }
}

pub open spec fn record_json(record: RecordView) -> JsonView {
    JsonView::Object(
        with_some(
            Map::empty()
                .insert("id"@, JsonView::Text(record.id))
                .insert("path"@, JsonView::Text(record.path))
                .insert("name"@, JsonView::Text(record.name))
                .insert("enabled"@, JsonView::Bool(record.enabled)),
            "cook"@,
            match record.cook {
                Some(argv) => Some(texts_json(argv)),
                None => None,
            },
        ),
    )
}

impl ProjectRecord {
    pub fn from_json(json: &Json) -> (record: Option<ProjectRecord>)
        ensures
            option_view(record) == read_record(json@),
    {
        let id = required_text(json, "id");
        let path = required_text(json, "path");
        let name = required_text(json, "name");
        let enabled = match json.field("enabled") {
            Some(value) => value.as_bool(),
            None => None,
        };
        let cook: Option<Option<Vec<String>>> = match json.field("cook") {
            None => Some(None),
            Some(value) => if value.is_null() {
                Some(None)
            } else {
                match texts_from_json(value) {
                    Some(argv) => Some(Some(argv)),
                    None => None,
                }
            },
        };
        match (id, path, name, enabled, cook) {
            (Some(id), Some(path), Some(name), Some(enabled), Some(cook)) => Some(
                ProjectRecord { id, path, name, enabled, cook },
            ),
            _ => None,
        }
    }

    pub fn to_json(&self) -> (json: Json)
        ensures
            json@ == record_json(self@),
    {
        let cook = match &self.cook {
            Some(argv) => Some(texts_to_json(argv)),
            None => None,
        };
        JsonObject::new()
            .with("id", Json::text(self.id.as_str()))
            .with("path", Json::text(self.path.as_str()))
            .with("name", Json::text(self.name.as_str()))
            .with("enabled", Json::Bool(self.enabled))
            .with_some("cook", cook)
            .done()
    }
}

/// A registry record read from its own JSON form is the same record.
pub proof fn record_reads_back(record: RecordView)
    ensures
        read_record(record_json(record)) == Some(record),
{
    reveal_strlit("id");
    assert("id"@.len() == 2);
    reveal_strlit("path");
    assert("path"@.len() == 4);
    reveal_strlit("name");
    assert("name"@.len() == 4);
    reveal_strlit("enabled");
    assert("enabled"@.len() == 7);
    reveal_strlit("cook");
    assert("cook"@.len() == 4);
    assert("path"@[0] != "name"@[0]);
    assert("path"@[0] != "cook"@[0]);
    assert("name"@[0] != "cook"@[0]);
    match record.cook {
        Some(argv) => {
            texts_read_back(argv);
        },
        None => {},
    }
}

} // verus!
