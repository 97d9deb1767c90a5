//! Per-project bookkeeping: the last good snapshot and the debounce tracker.

use crate::json::{encode_json, json_bytes};
use crate::ordered::{increasing, TextMap};
use crate::project::{GraphProjection, ProjectRecord, ProjectionView, RecordView, Snapshot, SnapshotView};
use crate::project_json::projection_json;
use crate::sorted::{finite_sets_can_be_listed, in_order, lists, order_is_unique, strict_order};
use crate::text::{text_less, text_order_irreflexive, text_order_total, text_order_transitive};
use crate::time::{Duration, MAX_NANOS};
use crate::views::{copied_text, option_ref_view, option_view, views, views_push};
use vstd::prelude::*;

verus! {

// ---------------------------------------------------------------------------
// The cache of one project

/// What the last attempt at a snapshot failed with.
#[derive(Debug, PartialEq, Eq)]
pub struct CacheFailure {
    pub message: String,
    pub exit_code: Option<i32>,
}

pub struct CacheFailureView {
    pub message: Seq<char>,
    pub exit_code: Option<i32>,
}

impl View for CacheFailure {
    type V = CacheFailureView;

    open spec fn view(&self) -> CacheFailureView {
        CacheFailureView { message: self.message@, exit_code: self.exit_code }
    }
}

impl Clone for CacheFailure {
    fn clone(&self) -> (copy: Self)
        ensures
            copy@ == self@,
    {
        CacheFailure { message: self.message.clone(), exit_code: self.exit_code }
    }
}

/// The last good snapshot of a project, and how the last attempt went.
#[derive(Debug)]
pub struct ProjectCache {
    record: ProjectRecord,
    projection: Option<GraphProjection>,
    last_error: Option<CacheFailure>,
    last_successful_generation: Option<String>,
    retained_bytes: usize,
}

pub struct CacheView {
    pub record: RecordView,
    pub projection: Option<ProjectionView>,
    pub last_error: Option<CacheFailureView>,
    pub last_successful_generation: Option<Seq<char>>,
    pub retained_bytes: usize,
}

impl View for ProjectCache {
    type V = CacheView;

    closed spec fn view(&self) -> CacheView {
        CacheView {
            record: self.record@,
            projection: option_view(self.projection),
            last_error: option_view(self.last_error),
            last_successful_generation: option_view(self.last_successful_generation),
            retained_bytes: self.retained_bytes,
        }
    }
}

/// The projection of a snapshot, with what it lacks.
pub open spec fn projected(record: RecordView, snapshot: SnapshotView, degraded: Seq<Seq<char>>) -> ProjectionView {
    ProjectionView { project_id: record.id, path: record.path, snapshot, degraded }
}

/// The marks of a projection that is not up to date.
pub open spec fn stale_marks() -> Seq<Seq<char>> {
    seq!["snapshot_stale"@]
}

/// The size of a snapshot in its largest form: as a stale projection.
pub open spec fn retained_size(record: RecordView, snapshot: SnapshotView) -> nat {
    json_bytes(projection_json(projected(record, snapshot, stale_marks()))).len()
}

/// A cache that has seen nothing.
pub open spec fn fresh_cache(record: RecordView) -> CacheView {
    CacheView { record, projection: None, last_error: None, last_successful_generation: None, retained_bytes: 0 }
}

/// The cache after a good snapshot of the given size.
pub open spec fn cache_replaced(cache: CacheView, snapshot: SnapshotView, retained_bytes: usize) -> CacheView {
    CacheView {
        record: cache.record,
        projection: Some(projected(cache.record, snapshot, Seq::empty())),
        last_error: None,
        last_successful_generation: Some(snapshot.generated_at),
        retained_bytes,
    }
}

/// The cache after a failed attempt: what was good stays, marked as stale.
pub open spec fn cache_failed(cache: CacheView, message: Seq<char>, exit_code: Option<i32>) -> CacheView {
    CacheView {
        projection: match cache.projection {
            Some(projection) => Some(ProjectionView { degraded: stale_marks(), ..projection }),
            None => None,
        },
        last_error: Some(CacheFailureView { message, exit_code }),
        ..cache
    }
}

fn stale() -> (marks: Vec<String>)
    ensures
        views(marks@) == stale_marks(),
{
    let mut marks: Vec<String> = Vec::new();
    let mark = "snapshot_stale".to_owned();
    proof {
        views_push(marks@, mark);
    }
    marks.push(mark);
    assert(views(marks@) =~= stale_marks());
    marks
}

/// A projection of a snapshot, marked as stale.
pub fn stale_projection(record: &ProjectRecord, snapshot: &Snapshot) -> (projection: GraphProjection)
    ensures
        projection@ == projected(record@, snapshot@, stale_marks()),
{
    GraphProjection {
        project_id: record.id.clone(),
        path: record.path.clone(),
        snapshot: snapshot.clone(),
        degraded: stale(),
    }
}

/// Measures a snapshot in its largest form.
pub fn retained_projection_bytes(record: &ProjectRecord, snapshot: &Snapshot) -> (bytes: usize)
    ensures
        bytes == retained_size(record@, snapshot@),
{
    encode_json(&stale_projection(record, snapshot).to_json()).len()
}

impl ProjectCache {
    /// A cache that has seen nothing.
    pub fn new(record: ProjectRecord) -> (cache: ProjectCache)
        ensures
            cache@ == fresh_cache(record@),
    {
        ProjectCache {
            record,
            projection: None,
            last_error: None,
            last_successful_generation: None,
            retained_bytes: 0,
        }
    }

    pub fn record(&self) -> (record: &ProjectRecord)
        ensures
            record@ == self@.record,
    {
        &self.record
    }

    /// Takes over a changed registration of the same project.
    pub fn update_record(&mut self, record: ProjectRecord)
        ensures
            final(self)@ == (CacheView { record: record@, ..old(self)@ }),
    {
        self.record = record;
    }

    /// Takes over a good snapshot.
    pub fn replace(&mut self, snapshot: Snapshot)
        ensures
            final(self)@ == cache_replaced(old(self)@, snapshot@, retained_size(old(self)@.record, snapshot@) as usize),
    {
        let bytes = retained_projection_bytes(&self.record, &snapshot);
        self.replace_accounted(snapshot, bytes);
    }

    /// Takes over a good snapshot whose size is known.
    pub fn replace_accounted(&mut self, snapshot: Snapshot, retained_bytes: usize)
        ensures
            final(self)@ == cache_replaced(old(self)@, snapshot@, retained_bytes),
    {
        let projection = GraphProjection {
            project_id: self.record.id.clone(),
            path: self.record.path.clone(),
            snapshot,
            degraded: Vec::new(),
        };
        assert(views(projection.degraded@) =~= Seq::<Seq<char>>::empty());
        self.last_successful_generation = Some(projection.snapshot.generated_at.clone());
        self.projection = Some(projection);
        self.last_error = None;
        self.retained_bytes = retained_bytes;
    }

    /// Takes note of a failed attempt.
    pub fn fail(&mut self, message: String, exit_code: Option<i32>)
        ensures
            final(self)@ == cache_failed(old(self)@, message@, exit_code),
    {
        match self.projection.take() {
            Some(projection) => {
                self.projection = Some(
                    GraphProjection {
                        project_id: projection.project_id,
                        path: projection.path,
                        snapshot: projection.snapshot,
                        degraded: stale(),
                    },
                );
            },
            None => {},
        }
        self.last_error = Some(CacheFailure { message, exit_code });
    }

    pub fn projection(&self) -> (projection: Option<&GraphProjection>)
        ensures
            option_ref_view(projection) == self@.projection,
    {
        self.projection.as_ref()
    }

    pub fn last_error(&self) -> (failure: Option<&CacheFailure>)
        ensures
            option_ref_view(failure) == self@.last_error,
    {
        self.last_error.as_ref()
    }

    pub fn last_successful_generation(&self) -> (generation: Option<&str>)
        ensures
            generation is Some == (self@.last_successful_generation is Some),
            generation matches Some(text) ==> self@.last_successful_generation == Some(text@),
    {
        match &self.last_successful_generation {
            Some(text) => Some(text.as_str()),
            None => None,
        }
    }

    pub fn retained_bytes(&self) -> (bytes: usize)
        ensures
            bytes == self@.retained_bytes,
    {
        self.retained_bytes
    }

    /// The same cache once more.
    pub fn copied(&self) -> (copy: ProjectCache)
        ensures
            copy@ == self@,
    {
        ProjectCache {
            record: self.record.clone(),
            projection: match &self.projection {
                Some(projection) => Some(projection.clone()),
                None => None,
            },
            last_error: match &self.last_error {
                Some(failure) => Some(failure.clone()),
                None => None,
            },
            last_successful_generation: copied_text(&self.last_successful_generation),
            retained_bytes: self.retained_bytes,
        }
    }
}

/// A failure takes nothing away: the last good snapshot, its generation and
/// its size stay, and only its marks say that it is old.
pub proof fn failures_keep_the_last_good_snapshot(cache: CacheView, message: Seq<char>, exit_code: Option<i32>)
    ensures
        ({
            let after = cache_failed(cache, message, exit_code);
            &&& after.projection is Some == cache.projection is Some
            &&& cache.projection matches Some(projection) ==> (after.projection->0).snapshot == projection.snapshot
                && (after.projection->0).degraded == stale_marks()
            &&& after.last_successful_generation == cache.last_successful_generation
            &&& after.retained_bytes == cache.retained_bytes
            &&& after.last_error == Some(CacheFailureView { message, exit_code })
        }),
{
}

/// However many failures came before, a good snapshot makes the cache healthy.
pub proof fn success_heals_the_cache(cache: CacheView, message: Seq<char>, exit_code: Option<i32>, snapshot: SnapshotView, bytes: usize)
    ensures
        cache_replaced(cache_failed(cache, message, exit_code), snapshot, bytes) == cache_replaced(cache, snapshot, bytes),
        cache_replaced(cache, snapshot, bytes).last_error is None,
        (cache_replaced(cache, snapshot, bytes).projection->0).degraded.len() == 0,
{
}

// ---------------------------------------------------------------------------
// The debounce tracker

/// Where one project stands between a change on disk and its next snapshot.
#[derive(Clone, Copy, Debug, PartialEq, Eq, Structural)]
pub enum DirtyState {
    /// Changed; a snapshot is due at the deadline unless it changes again.
    Debouncing(Duration),
    /// A snapshot is being taken; `dirty_again` once it changed meanwhile.
    Running { dirty_again: bool },
}

/// What a tracker holds: the quiet window and the state of each project that
/// is not idle.
#[verifier::ext_equal]
pub struct DirtyView {
    pub window: Duration,
    pub projects: Map<Seq<char>, DirtyState>,
}

impl DirtyView {
    /// The deadline that a change at `now` sets.
    pub open spec fn deadline(self, now: Duration) -> Duration {
        Duration { nanos: (now.nanos + self.window.nanos) as u128 }
    }

    pub open spec fn running(self, id: Seq<char>) -> bool {
        self.projects.dom().contains(id) && self.projects[id] is Running
    }

    /// `id` is running and changed meanwhile.
    pub open spec fn reruns(self, id: Seq<char>) -> bool {
        self.projects.dom().contains(id) && self.projects[id] == (DirtyState::Running { dirty_again: true })
    }

    /// `id` waits and its deadline has come.
    pub open spec fn is_due(self, id: Seq<char>, now: Duration) -> bool {
        self.projects.dom().contains(id) && (self.projects[id] matches DirtyState::Debouncing(at)
            && at.nanos <= now.nanos)
    }

    /// `list` names the projects that are due, in text order.
    pub open spec fn lists_due(self, list: Seq<Seq<char>>, now: Duration) -> bool {
        &&& increasing(list)
        &&& forall|id: Seq<char>| #[trigger] list.contains(id) <==> self.is_due(id, now)
    }

    /// The projects that are due, in text order.
    pub open spec fn due_order(self, now: Duration) -> Seq<Seq<char>> {
        choose|list: Seq<Seq<char>>| self.lists_due(list, now)
    }

    /// After a change of project `id` at `now`.
    pub open spec fn marked(self, id: Seq<char>, now: Duration) -> DirtyView {
        let next = if self.running(id) {
            DirtyState::Running { dirty_again: true }
        } else {
            DirtyState::Debouncing(self.deadline(now))
        };
        DirtyView { projects: self.projects.insert(id, next), ..self }
    }

    /// After every project that is due at `now` has been started.
    pub open spec fn started_due(self, now: Duration) -> DirtyView {
        DirtyView {
            projects: Map::new(
                |id: Seq<char>| self.projects.dom().contains(id),
                |id: Seq<char>|
                    if self.is_due(id, now) {
                        DirtyState::Running { dirty_again: false }
                    } else {
                        self.projects[id]
                    },
            ),
            ..self
        }
    }

    /// After `id` has been started at once, if it was not running.
    pub open spec fn started(self, id: Seq<char>) -> DirtyView {
        if self.running(id) {
            self
        } else {
            DirtyView {
                projects: self.projects.insert(id, DirtyState::Running { dirty_again: false }),
                ..self
            }
        }
    }

    /// After the snapshot of `id` has ended at `now`.
    pub open spec fn ended(self, id: Seq<char>, now: Duration) -> DirtyView {
        if self.running(id) {
            if self.reruns(id) {
                DirtyView {
                    projects: self.projects.insert(id, DirtyState::Debouncing(self.deadline(now))),
                    ..self
                }
            } else {
                DirtyView { projects: self.projects.remove(id), ..self }
            }
        } else {
            self
        }
    }

    /// After `id` has been forgotten.
    pub open spec fn forgotten(self, id: Seq<char>) -> DirtyView {
        DirtyView { projects: self.projects.remove(id), ..self }
    }
}

spec fn text_order() -> spec_fn(Seq<char>, Seq<char>) -> bool {
    |x: Seq<char>, y: Seq<char>| text_less(x, y)
}

proof fn text_order_is_strict()
    ensures
        strict_order(text_order()),
{
    let less = text_order();
    assert forall|x: Seq<char>| !#[trigger] less(x, x) by {
        text_order_irreflexive(x);
    }
    assert forall|x: Seq<char>, y: Seq<char>, z: Seq<char>| #[trigger] less(x, y) && #[trigger] less(y, z) implies less(x, z) by {
        text_order_transitive(x, y, z);
    }
    assert forall|x: Seq<char>, y: Seq<char>| #[trigger] less(x, y) || less(y, x) || x == y by {
        text_order_total(x, y);
    }
}

proof fn due_order_is_unique(view: DirtyView, a: Seq<Seq<char>>, b: Seq<Seq<char>>, now: Duration)
    requires
        view.lists_due(a, now),
        view.lists_due(b, now),
    ensures
        a == b,
{
    let less = text_order();
    text_order_is_strict();
    let due = Set::new(|id: Seq<char>| view.is_due(id, now));
    assert(lists(a, due, less));
    assert(lists(b, due, less));
    order_is_unique(a, b, due, less);
}

/// The projects that are due can be listed, since no more are tracked than
/// can be counted.
pub(crate) proof fn due_projects_can_be_listed(view: DirtyView, now: Duration)
    requires
        view.projects.dom().finite(),
    ensures
        view.lists_due(view.due_order(now), now),
{
    let due = view.projects.dom().filter(|id: Seq<char>| view.is_due(id, now));
    let less = text_order();
    text_order_is_strict();
    finite_sets_can_be_listed(due, less);
    let list = in_order(due, less);
    assert(increasing(list)) by {
        assert forall|i: int, j: int| 0 <= i < j < list.len() implies text_less(#[trigger] list[i], #[trigger] list[j]) by {
            assert(less(list[i], list[j]));
        }
    }
    assert forall|id: Seq<char>| #[trigger] list.contains(id) <==> view.is_due(id, now) by {
        assert(due.contains(id) <==> view.is_due(id, now));
    }
    assert(view.lists_due(list, now));
}

/// Tracks which projects changed, which are due and which are running.
pub struct DirtyTracker {
    window: Duration,
    projects: TextMap<DirtyState>,
}

impl View for DirtyTracker {
    type V = DirtyView;

    closed spec fn view(&self) -> DirtyView {
        DirtyView { window: self.window, projects: self.projects@ }
    }
}

impl DirtyTracker {
    /// A tracker with a quiet window and no project in it.
    pub fn new(window: Duration) -> (tracker: Self)
        ensures
            tracker@ == (DirtyView { window, projects: Map::empty() }),
    {
        DirtyTracker { window, projects: TextMap::new() }
    }

    /// Notes that a project changed at `now`.
    pub fn mark_dirty(&mut self, project_id: &str, now: Duration)
        requires
            !old(self)@.running(project_id@) ==> now.nanos + old(self)@.window.nanos <= MAX_NANOS,
        ensures
            final(self)@ == old(self)@.marked(project_id@, now),
    {
        let running = self.is_running(project_id);
        let next = if running {
            DirtyState::Running { dirty_again: true }
        } else {
            DirtyState::Debouncing(now.plus(self.window))
        };
        self.projects.insert(project_id.to_owned(), next);
    }

    /// Starts every project whose deadline has come and returns their ids in
    /// order.
    pub fn due(&mut self, now: Duration) -> (ids: Vec<String>)
        ensures
            views(ids@) == old(self)@.due_order(now),
            old(self)@.lists_due(views(ids@), now),
            final(self)@ == old(self)@.started_due(now),
    {
        let ghost before = self@;
        let keys = self.projects.keys();
        let ghost all = views(keys@);
        let mut ids: Vec<String> = Vec::new();
        let mut i: usize = 0;
        assert(before.started_due(now).projects.dom() =~= before.projects.dom());
        while i < keys.len()
            invariant
                i <= keys@.len(),
                all == views(keys@),
                increasing(all),
                forall|id: Seq<char>| #[trigger] all.contains(id) <==> before.projects.dom().contains(id),
                self.window == before.window,
                self.projects@.dom() =~= before.projects.dom(),
                forall|j: int| 0 <= j < i ==> self.projects@[#[trigger] all[j]] == before.started_due(now).projects[all[j]],
                forall|j: int| i <= j < all.len() ==> self.projects@[#[trigger] all[j]] == before.projects[all[j]],
                increasing(views(ids@)),
                forall|j: int| 0 <= j < ids@.len() ==> exists|k: int| 0 <= k < i && #[trigger] all[k] == (#[trigger] ids@[j])@,
                forall|id: Seq<char>| #[trigger] views(ids@).contains(id) <==> (exists|k: int| 0 <= k < i && #[trigger] all[k] == id && before.is_due(id, now)),
            decreases keys@.len() - i,
        {
            let ghost map_before = self.projects@;
            let ghost ids_before = ids@;
            proof {
                assert(all[i as int] == keys@[i as int]@);
                assert(all.contains(all[i as int]));
            }
            let due = match self.projects.get(keys[i].as_str()) {
                Some(DirtyState::Debouncing(at)) => now.reached(*at),
                _ => false,
            };
            assert(due == before.is_due(all[i as int], now));
            if due {
                self.projects.insert(keys[i].clone(), DirtyState::Running { dirty_again: false });
                ids.push(keys[i].clone());
                proof {
                    assert(views(ids@) =~= views(ids_before).push(all[i as int]));
                    assert forall|a: int, b: int| 0 <= a < b < views(ids@).len() implies text_less(#[trigger] views(ids@)[a], #[trigger] views(ids@)[b]) by {
                        if b == ids_before.len() {
                            let k = choose|k: int| 0 <= k < i && #[trigger] all[k] == ids_before[a]@;
                            assert(views(ids@)[a] == all[k]);
                        } else {
                            assert(views(ids_before)[a] == views(ids@)[a]);
                            assert(views(ids_before)[b] == views(ids@)[b]);
                        }
                    }
                    assert forall|j: int| 0 <= j < ids@.len() implies exists|k: int| 0 <= k < i + 1 && #[trigger] all[k] == (#[trigger] ids@[j])@ by {
                        if j == ids_before.len() {
                            assert(all[i as int] == ids@[j]@);
                        } else {
                            assert(ids@[j] == ids_before[j]);
                        }
                    }
                }
            }
            proof {
                assert forall|id: Seq<char>| #[trigger] views(ids@).contains(id) <==> (exists|k: int| 0 <= k < i + 1 && #[trigger] all[k] == id && before.is_due(id, now)) by {
                    if due {
                        if views(ids@).contains(id) {
                            let j = choose|j: int| 0 <= j < views(ids@).len() && views(ids@)[j] == id;
                            if j < ids_before.len() {
                                assert(views(ids_before)[j] == id);
                                assert(views(ids_before).contains(id));
                            }
                        }
                        if views(ids_before).contains(id) {
                            let j = choose|j: int| 0 <= j < views(ids_before).len() && views(ids_before)[j] == id;
                            assert(views(ids@)[j] == id);
                        }
                        assert(views(ids@)[ids_before.len() as int] == all[i as int]);
                    }
                    if exists|k: int| 0 <= k < i + 1 && #[trigger] all[k] == id && before.is_due(id, now) {
                        let k = choose|k: int| 0 <= k < i + 1 && #[trigger] all[k] == id && before.is_due(id, now);
                        if k < i {
                            assert(views(ids_before).contains(id));
                        } else {
                            assert(due);
                            assert(views(ids@)[ids_before.len() as int] == id);
                        }
                    }
                }
                assert forall|j: int| i + 1 <= j < all.len() implies self.projects@[#[trigger] all[j]] == before.projects[all[j]] by {
                    text_order_irreflexive(all[j]);
                    assert(text_less(all[i as int], all[j]));
                }
                assert forall|j: int| 0 <= j < i + 1 implies self.projects@[#[trigger] all[j]] == before.started_due(now).projects[all[j]] by {
                    if j < i {
                        text_order_irreflexive(all[j]);
                        assert(text_less(all[j], all[i as int]));
                    } else {
                        assert(before.projects.dom().contains(all[j]));
                    }
                }
            }
            i += 1;
        }
        proof {
            assert forall|id: Seq<char>| #[trigger] views(ids@).contains(id) <==> before.is_due(id, now) by {
                if before.is_due(id, now) {
                    assert(all.contains(id));
                    let k = choose|k: int| 0 <= k < all.len() && all[k] == id;
                    assert(all[k] == id);
                }
            }
            let wanted = before.started_due(now);
            assert forall|id: Seq<char>| before.projects.dom().contains(id) implies #[trigger] self.projects@[id] == wanted.projects[id] by {
                assert(all.contains(id));
                let k = choose|k: int| 0 <= k < all.len() && all[k] == id;
                assert(all[k] == id);
            }
            assert(self.projects@ =~= wanted.projects);
            due_order_is_unique(before, views(ids@), before.due_order(now), now);
        }
        ids
    }

    /// Starts a project at once unless it is running; says whether it did.
    pub fn start_now(&mut self, project_id: &str) -> (started: bool)
        ensures
            started == !old(self)@.running(project_id@),
            final(self)@ == old(self)@.started(project_id@),
    {
        if self.is_running(project_id) {
            false
        } else {
            self.projects.insert(project_id.to_owned(), DirtyState::Running { dirty_again: false });
            true
        }
    }

    /// Whether a snapshot of the project is being taken.
    pub fn is_running(&self, project_id: &str) -> (running: bool)
        ensures
            running == self@.running(project_id@),
    {
        match self.projects.get(project_id) {
            Some(DirtyState::Running { dirty_again }) => true,
            _ => false,
        }
    }

    /// Notes that the snapshot of a project ended at `now`.
    pub fn finished(&mut self, project_id: &str, now: Duration)
        requires
            old(self)@.reruns(project_id@) ==> now.nanos + old(self)@.window.nanos <= MAX_NANOS,
        ensures
            final(self)@ == old(self)@.ended(project_id@, now),
    {
        let ghost before = self@;
        match self.projects.remove(project_id) {
            Some(DirtyState::Running { dirty_again: true }) => {
                self.projects.insert(project_id.to_owned(), DirtyState::Debouncing(now.plus(self.window)));
                assert(self@.projects =~= before.ended(project_id@, now).projects);
            },
            Some(DirtyState::Running { dirty_again: false }) => {},
            None => {
                assert(self@.projects =~= before.projects);
            },
            Some(DirtyState::Debouncing(at)) => {
                self.projects.insert(project_id.to_owned(), DirtyState::Debouncing(at));
                assert(self@.projects =~= before.projects);
            },
        }
    }

    /// Forgets a project.
    pub fn remove(&mut self, project_id: &str)
        ensures
            final(self)@ == old(self)@.forgotten(project_id@),
    {
        let _ = self.projects.remove(project_id);
    }
}

/// Changes to a waiting project coalesce: after any second change only the
/// later deadline counts.
pub proof fn changes_coalesce(view: DirtyView, id: Seq<char>, first: Duration, second: Duration)
    ensures
        view.marked(id, first).marked(id, second) == view.marked(id, second),
{
    assert(view.marked(id, first).marked(id, second).projects =~= view.marked(id, second).projects);
}

/// However often a running project changes, its end schedules exactly one
/// more snapshot, one window later; without a change its end leaves it idle.
pub proof fn one_rerun_after_changes_while_running(view: DirtyView, id: Seq<char>, first: Duration, second: Duration, end: Duration)
    requires
        view.running(id),
    ensures
        view.marked(id, first).marked(id, second).ended(id, end) == view.marked(id, first).ended(id, end),
        view.marked(id, first).ended(id, end).projects[id] == DirtyState::Debouncing(view.deadline(end)),
        view.projects[id] == (DirtyState::Running { dirty_again: false }) ==> !view.ended(id, end).projects.dom().contains(id),
{
    changes_coalesce(view, id, first, second);
}

/// What happens to one project leaves every other project as it is.
pub proof fn projects_are_independent(view: DirtyView, id: Seq<char>, other: Seq<char>, now: Duration)
    requires
        id != other,
    ensures
        view.marked(id, now).projects.dom().contains(other) == view.projects.dom().contains(other),
        view.started(id).projects.dom().contains(other) == view.projects.dom().contains(other),
        view.ended(id, now).projects.dom().contains(other) == view.projects.dom().contains(other),
        view.forgotten(id).projects.dom().contains(other) == view.projects.dom().contains(other),
        view.projects.dom().contains(other) ==> {
            &&& view.marked(id, now).projects[other] == view.projects[other]
            &&& view.started(id).projects[other] == view.projects[other]
            &&& view.ended(id, now).projects[other] == view.projects[other]
            &&& view.forgotten(id).projects[other] == view.projects[other]
        },
{
}

/// A project is handed out once per deadline: after `due` nothing is due at
/// the same or an earlier time, and everything handed out is running.
pub proof fn due_hands_out_once(view: DirtyView, id: Seq<char>, now: Duration, later: Duration)
    requires
        later.nanos <= now.nanos,
    ensures
        !view.started_due(now).is_due(id, later),
        view.is_due(id, now) ==> view.started_due(now).running(id),
        view.running(id) ==> view.started_due(now).projects[id] == view.projects[id],
{
}

} // verus!
