//! The shared project model: tasks, snapshots, graph projections and registry
//! records.

use crate::path::{paths_equal, same_path};
use crate::text::{same_text, text_before, text_less, text_order_irreflexive, text_order_total,
    text_order_transitive};
use crate::views::{copied_text, copied_texts, option_view, views, views_push};
use vstd::prelude::*;

verus! {

/// Names a task within its project.
#[derive(Debug, PartialEq, Eq, PartialOrd, Ord, Hash)]
pub enum TaskId {
    Number(u64),
    String(String),
}

pub enum TaskIdView {
    Number(u64),
    String(Seq<char>),
}

impl View for TaskId {
    type V = TaskIdView;

    open spec fn view(&self) -> TaskIdView {
        match self {
            TaskId::Number(number) => TaskIdView::Number(*number),
            TaskId::String(text) => TaskIdView::String(text@),
        }
    }
}

/// `a` comes strictly before `b`: numbers first, each kind in its own order.
pub open spec fn id_less(a: TaskIdView, b: TaskIdView) -> bool {
    match (a, b) {
        (TaskIdView::Number(x), TaskIdView::Number(y)) => x < y,
        (TaskIdView::Number(_), TaskIdView::String(_)) => true,
        (TaskIdView::String(_), TaskIdView::Number(_)) => false,
        (TaskIdView::String(x), TaskIdView::String(y)) => text_less(x, y),
    }
}

/// Task ids are totally ordered.
pub proof fn id_order_total(a: TaskIdView, b: TaskIdView)
    ensures
        id_less(a, b) || id_less(b, a) || a == b,
        !(id_less(a, b) && id_less(b, a)),
        !id_less(a, a),
{
    match (a, b) {
        (TaskIdView::String(x), TaskIdView::String(y)) => {
            text_order_total(x, y);
            text_order_irreflexive(x);
        },
        (TaskIdView::String(x), _) => {
            text_order_irreflexive(x);
        },
        _ => {},
    }
}

/// The order of task ids is transitive.
pub proof fn id_order_transitive(a: TaskIdView, b: TaskIdView, c: TaskIdView)
    requires
        id_less(a, b),
        id_less(b, c),
    ensures
        id_less(a, c),
{
    match (a, b, c) {
        (TaskIdView::String(x), TaskIdView::String(y), TaskIdView::String(z)) => {
            text_order_transitive(x, y, z);
        },
        _ => {},
    }
}

impl Clone for TaskId {
    fn clone(&self) -> (copy: Self)
        ensures
            copy@ == self@,
    {
        match self {
            TaskId::Number(number) => TaskId::Number(*number),
            TaskId::String(text) => TaskId::String(text.clone()),
        }
    }
}

impl TaskId {
    /// Whether both name the same task.
    pub fn same(&self, other: &TaskId) -> (same: bool)
        ensures
            same == (self@ == other@),
    {
        match (self, other) {
            (TaskId::Number(a), TaskId::Number(b)) => *a == *b,
            (TaskId::String(a), TaskId::String(b)) => same_text(a.as_str(), b.as_str()),
            _ => false,
        }
    }

    /// Whether this id comes strictly before the other.
    pub fn before(&self, other: &TaskId) -> (before: bool)
        ensures
            before == id_less(self@, other@),
    {
        match (self, other) {
            (TaskId::Number(a), TaskId::Number(b)) => *a < *b,
            (TaskId::Number(_), TaskId::String(_)) => true,
            (TaskId::String(_), TaskId::Number(_)) => false,
            (TaskId::String(a), TaskId::String(b)) => text_before(a.as_str(), b.as_str()),
        }
    }
}

/// The same ids once more.
pub fn copied_ids(list: &Vec<TaskId>) -> (copy: Vec<TaskId>)
    ensures
        views(copy@) == views(list@),
{
    let mut copy: Vec<TaskId> = Vec::new();
    let mut i: usize = 0;
    while i < list.len()
        invariant
            i <= list@.len(),
            views(copy@) == views(list@).take(i as int),
        decreases list@.len() - i,
    {
        let id = list[i].clone();
        proof {
            views_push(copy@, id);
            assert(views(list@).take(i + 1) =~= views(list@).take(i as int).push(views(list@)[i as int]));
        }
        copy.push(id);
        i += 1;
    }
    assert(views(list@).take(i as int) =~= views(list@));
    copy
}

/// How much of the method a project uses.
#[derive(Clone, Copy, Debug, PartialEq, Eq, Structural)]
pub enum ProjectMode {
    Lite,
    Full,
}

/// Who works on a task, and since when.
#[derive(Debug, PartialEq, Eq)]
pub struct Claim {
    pub by: String,
    pub at: String,
}

pub struct ClaimView {
    pub by: Seq<char>,
    pub at: Seq<char>,
}

impl View for Claim {
    type V = ClaimView;

    open spec fn view(&self) -> ClaimView {
        ClaimView { by: self.by@, at: self.at@ }
    }
}

impl Clone for Claim {
    fn clone(&self) -> (copy: Self)
        ensures
            copy@ == self@,
    {
        Claim { by: self.by.clone(), at: self.at.clone() }
    }
}

/// A question that a task is waiting on.
#[derive(Debug, PartialEq, Eq)]
pub struct Escalation {
    pub fork: String,
    pub options: Vec<String>,
}

pub struct EscalationView {
    pub fork: Seq<char>,
    pub options: Seq<Seq<char>>,
}

impl View for Escalation {
    type V = EscalationView;

    open spec fn view(&self) -> EscalationView {
        EscalationView { fork: self.fork@, options: views(self.options@) }
    }
}

impl Clone for Escalation {
    fn clone(&self) -> (copy: Self)
        ensures
            copy@ == self@,
    {
        Escalation { fork: self.fork.clone(), options: copied_texts(&self.options) }
    }
}

/// One task of a snapshot.
#[derive(Debug, PartialEq, Eq)]
pub struct SnapshotTask {
    pub id: TaskId,
    pub slug: String,
    pub title: String,
    pub status: String,
    pub stage: String,
    pub priority: String,
    pub deps: Vec<TaskId>,
    pub blocked_reason: Option<String>,
    pub category: Option<String>,
    pub discovered_from: Option<TaskId>,
    pub claim: Option<Claim>,
    pub escalation: Option<Escalation>,
}

pub struct TaskView {
    pub id: TaskIdView,
    pub slug: Seq<char>,
    pub title: Seq<char>,
    pub status: Seq<char>,
    pub stage: Seq<char>,
    pub priority: Seq<char>,
    pub deps: Seq<TaskIdView>,
    pub blocked_reason: Option<Seq<char>>,
    pub category: Option<Seq<char>>,
    pub discovered_from: Option<TaskIdView>,
    pub claim: Option<ClaimView>,
    pub escalation: Option<EscalationView>,
}

impl View for SnapshotTask {
    type V = TaskView;

    open spec fn view(&self) -> TaskView {
        TaskView {
            id: self.id@,
            slug: self.slug@,
            title: self.title@,
            status: self.status@,
            stage: self.stage@,
            priority: self.priority@,
            deps: views(self.deps@),
            blocked_reason: option_view(self.blocked_reason),
            category: option_view(self.category),
            discovered_from: option_view(self.discovered_from),
            claim: option_view(self.claim),
            escalation: option_view(self.escalation),
        }
    }
}

impl Clone for SnapshotTask {
    fn clone(&self) -> (copy: Self)
        ensures
            copy@ == self@,
    {
        SnapshotTask {
            id: self.id.clone(),
            slug: self.slug.clone(),
            title: self.title.clone(),
            status: self.status.clone(),
            stage: self.stage.clone(),
            priority: self.priority.clone(),
            deps: copied_ids(&self.deps),
            blocked_reason: copied_text(&self.blocked_reason),
            category: copied_text(&self.category),
            discovered_from: match &self.discovered_from {
                Some(id) => Some(id.clone()),
                None => None,
            },
            claim: match &self.claim {
                Some(claim) => Some(claim.clone()),
                None => None,
            },
            escalation: match &self.escalation {
                Some(escalation) => Some(escalation.clone()),
                None => None,
            },
        }
    }
}

/// The whole task list of a project at one moment.
#[derive(Debug, PartialEq, Eq)]
pub struct Snapshot {
    pub schema_version: u64,
    pub generated_at: String,
    pub mode: ProjectMode,
    pub max_parallel_tasks: Option<u64>,
    pub tasks: Vec<SnapshotTask>,
}

pub struct SnapshotView {
    pub schema_version: u64,
    pub generated_at: Seq<char>,
    pub mode: ProjectMode,
    pub max_parallel_tasks: Option<u64>,
    pub tasks: Seq<TaskView>,
}

impl View for Snapshot {
    type V = SnapshotView;

    open spec fn view(&self) -> SnapshotView {
        SnapshotView {
            schema_version: self.schema_version,
            generated_at: self.generated_at@,
            mode: self.mode,
            max_parallel_tasks: self.max_parallel_tasks,
            tasks: views(self.tasks@),
        }
    }
}

/// The same tasks once more.
pub fn copied_tasks(list: &Vec<SnapshotTask>) -> (copy: Vec<SnapshotTask>)
    ensures
        views(copy@) == views(list@),
{
    let mut copy: Vec<SnapshotTask> = Vec::new();
    let mut i: usize = 0;
    while i < list.len()
        invariant
            i <= list@.len(),
            views(copy@) == views(list@).take(i as int),
        decreases list@.len() - i,
    {
        let task = list[i].clone();
        proof {
            views_push(copy@, task);
            assert(views(list@).take(i + 1) =~= views(list@).take(i as int).push(views(list@)[i as int]));
        }
        copy.push(task);
        i += 1;
    }
    assert(views(list@).take(i as int) =~= views(list@));
    copy
}

impl Clone for Snapshot {
    fn clone(&self) -> (copy: Self)
        ensures
            copy@ == self@,
    {
        Snapshot {
            schema_version: self.schema_version,
            generated_at: self.generated_at.clone(),
            mode: self.mode,
            max_parallel_tasks: self.max_parallel_tasks,
            tasks: copied_tasks(&self.tasks),
        }
    }
}

/// A snapshot as served to clients: whose it is, and what it lacks.
#[derive(Debug, PartialEq, Eq)]
pub struct GraphProjection {
    pub project_id: String,
    pub path: String,
    pub snapshot: Snapshot,
    pub degraded: Vec<String>,
}

pub struct ProjectionView {
    pub project_id: Seq<char>,
    pub path: Seq<char>,
    pub snapshot: SnapshotView,
    pub degraded: Seq<Seq<char>>,
}

impl View for GraphProjection {
    type V = ProjectionView;

    open spec fn view(&self) -> ProjectionView {
        ProjectionView {
            project_id: self.project_id@,
            path: self.path@,
            snapshot: self.snapshot@,
            degraded: views(self.degraded@),
        }
    }
}

impl Clone for GraphProjection {
    fn clone(&self) -> (copy: Self)
        ensures
            copy@ == self@,
    {
        GraphProjection {
            project_id: self.project_id.clone(),
            path: self.path.clone(),
            snapshot: self.snapshot.clone(),
            degraded: copied_texts(&self.degraded),
        }
    }
}

/// One registered project.
#[derive(Debug, PartialEq, Eq)]
pub struct ProjectRecord {
    pub id: String,
    pub path: String,
    pub name: String,
    pub enabled: bool,
    pub cook: Option<Vec<String>>,
}

pub struct RecordView {
    pub id: Seq<char>,
    pub path: Seq<char>,
    pub name: Seq<char>,
    pub enabled: bool,
    pub cook: Option<Seq<Seq<char>>>,
}

impl View for ProjectRecord {
    type V = RecordView;

    open spec fn view(&self) -> RecordView {
        RecordView {
            id: self.id@,
            path: self.path@,
            name: self.name@,
            enabled: self.enabled,
            cook: match self.cook {
                Some(argv) => Some(views(argv@)),
                None => None,
            },
        }
    }
}

impl Clone for ProjectRecord {
    fn clone(&self) -> (copy: Self)
        ensures
            copy@ == self@,
    {
        ProjectRecord {
            id: self.id.clone(),
            path: self.path.clone(),
            name: self.name.clone(),
            enabled: self.enabled,
            cook: match &self.cook {
                Some(argv) => Some(copied_texts(argv)),
                None => None,
            },
        }
    }
}

/// Two spellings of one registration.
pub open spec fn same_record(a: RecordView, b: RecordView) -> bool {
    &&& a.id == b.id
    &&& same_path(a.path, b.path)
    &&& a.name == b.name
    &&& a.enabled == b.enabled
    &&& a.cook == b.cook
}

fn texts_equal(a: &Vec<String>, b: &Vec<String>) -> (same: bool)
    ensures
        same == (views(a@) == views(b@)),
{
    if a.len() != b.len() {
        assert(views(a@).len() != views(b@).len());
        return false;
    }
    let mut i: usize = 0;
    while i < a.len()
        invariant
            i <= a@.len() == b@.len(),
            forall|j: int| 0 <= j < i ==> (#[trigger] a@[j])@ == b@[j]@,
        decreases a@.len() - i,
    {
        if !same_text(a[i].as_str(), b[i].as_str()) {
            assert(views(a@)[i as int] != views(b@)[i as int]);
            return false;
        }
        i += 1;
    }
    assert(views(a@) =~= views(b@));
    true
}

impl ProjectRecord {
    /// Whether both are one registration.
    pub fn same(&self, other: &ProjectRecord) -> (same: bool)
        ensures
            same == same_record(self@, other@),
    {
        let commands = match (&self.cook, &other.cook) {
            (None, None) => true,
            (Some(a), Some(b)) => texts_equal(a, b),
            _ => false,
        };
        same_text(self.id.as_str(), other.id.as_str()) && paths_equal(self.path.as_str(), other.path.as_str()) && same_text(
            self.name.as_str(),
            other.name.as_str(),
        ) && self.enabled == other.enabled && commands
    }
}

} // verus!
