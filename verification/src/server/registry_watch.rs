//! What changes on disk mean: to the projects' snapshots, and, when the
//! registry changes, to everything that hangs on a project.

use crate::json::{Json, JsonObject, JsonView};
use crate::path::{join_path, lies_within, path_joined, path_within, paths_equal, same_path};
use crate::project::{same_record, ProjectRecord, RecordView};
use crate::server::model::{record_with, texts_except, texts_with, ServerView};
use crate::server::request::find_record;
use crate::server::snapshots::holds_text;
use crate::server::Server;
use crate::text::same_text;
use crate::time::Duration;
use crate::views::{option_view, views, views_push};
use vstd::prelude::*;

verus! {

/// How long to wait after a change of the registry, and between attempts to
/// watch a project: 25 ms.
pub const WATCH_RETRY_NANOS: u128 = 25_000_000;

/// How often the registry is read anyway: every 500 ms.
pub const REGISTRY_POLL_NANOS: u128 = 500_000_000;

pub open spec fn after(now: Duration, nanos: u128) -> Duration {
    Duration { nanos: (now.nanos + nanos) as u128 }
}

// ---------------------------------------------------------------------------
// Changes inside projects

/// The place of the first enabled project whose data directory holds the
/// path, or -1.
pub open spec fn watching_place(projects: Seq<RecordView>, path: Seq<char>) -> int
    decreases projects.len(),
{
    if projects.len() == 0 {
        -1
    } else if watching_place(projects.drop_last(), path) >= 0 {
        watching_place(projects.drop_last(), path)
    } else if projects.last().enabled && path_within(path, path_joined(projects.last().path, ".jeff"@)) {
        projects.len() - 1
    } else {
        -1
    }
}

impl ServerView {
    /// A path changed: the registry is read again shortly, or a project is
    /// due for a snapshot.
    pub open spec fn path_changed(self, path: Seq<char>, now: Duration) -> ServerView {
        if same_path(path, self.registry) {
            ServerView { registry_due: Some(after(now, WATCH_RETRY_NANOS)), ..self }
        } else {
            let at = watching_place(self.projects, path);
            if at >= 0 {
                self.with_dirty(self.dirty.marked(self.projects[at].id, now))
            } else {
                self
            }
        }
    }

    pub open spec fn paths_changed(self, paths: Seq<Seq<char>>, now: Duration) -> ServerView
        decreases paths.len(),
    {
        if paths.len() == 0 {
            self
        } else {
            self.paths_changed(paths.drop_last(), now).path_changed(paths.last(), now)
        }
    }

    /// The enabled ones of the projects may have changed.
    pub open spec fn all_marked(self, projects: Seq<RecordView>, now: Duration) -> ServerView
        decreases projects.len(),
    {
        if projects.len() == 0 {
            self
        } else {
            let before = self.all_marked(projects.drop_last(), now);
            if projects.last().enabled {
                before.with_dirty(before.dirty.marked(projects.last().id, now))
            } else {
                before
            }
        }
    }
}

proof fn watching_place_is_first(projects: Seq<RecordView>, path: Seq<char>, i: int)
    requires
        0 < i <= projects.len(),
        watching_place(projects.take(i), path) >= 0,
    ensures
        watching_place(projects, path) == watching_place(projects.take(i), path),
    decreases projects.len(),
{
    if i == projects.len() {
        assert(projects.take(i) =~= projects);
    } else {
        assert(projects.drop_last().take(i) =~= projects.take(i));
        watching_place_is_first(projects.drop_last(), path, i);
    }
}

impl Server {
    fn find_watching(&self, path: &str) -> (at: Option<usize>)
        ensures
            at matches Some(i) ==> watching_place(self@.projects, path@) == i && i < self.projects@.len(),
            at is None ==> watching_place(self@.projects, path@) == -1,
    {
        let ghost all = views(self.projects@);
        let mut i: usize = 0;
        assert(all.take(0) =~= Seq::<RecordView>::empty());
        while i < self.projects.len()
            invariant
                i <= self.projects@.len(),
                all == views(self.projects@),
                watching_place(all.take(i as int), path@) == -1,
            decreases self.projects@.len() - i,
        {
            proof {
                assert(all.take(i + 1).drop_last() =~= all.take(i as int));
                assert(all.take(i + 1).last() == self.projects@[i as int]@);
            }
            if self.projects[i].enabled {
                let directory = join_path(self.projects[i].path.as_str(), ".jeff");
                if lies_within(path, directory.as_str()) {
                    proof {
                        watching_place_is_first(all, path@, i + 1);
                    }
                    return Some(i);
                }
            }
            i += 1;
        }
        assert(all.take(i as int) =~= all);
        None
    }

    fn handle_path(&mut self, path: &str, now: Duration)
        requires
            old(self)@.timely(now),
        ensures
            final(self)@ == old(self)@.path_changed(path@, now),
    {
        if paths_equal(path, self.registry.as_str()) {
            self.registry_due = Some(now.plus(Duration { nanos: WATCH_RETRY_NANOS }));
            return;
        }
        match self.find_watching(path) {
            Some(at) => {
                assert(self@.projects[at as int] == self.projects@[at as int]@);
                let id = self.projects[at].id.clone();
                self.dirty.mark_dirty(id.as_str(), now);
            },
            None => {},
        }
    }

    /// Takes note of changes on disk.
    pub fn handle_notify(&mut self, paths: &Vec<String>, now: Duration)
        requires
            old(self)@.timely(now),
        ensures
            final(self)@ == old(self)@.paths_changed(views(paths@), now),
    {
        let ghost before = self@;
        let ghost all = views(paths@);
        let mut i: usize = 0;
        assert(all.take(0) =~= Seq::<Seq<char>>::empty());
        while i < paths.len()
            invariant
                i <= paths@.len(),
                all == views(paths@),
                self@.timely(now),
                self@ == before.paths_changed(all.take(i as int), now),
            decreases paths@.len() - i,
        {
            proof {
                assert(all.take(i + 1).drop_last() =~= all.take(i as int));
                assert(all.take(i + 1).last() == paths@[i as int]@);
            }
            self.handle_path(paths[i].as_str(), now);
            i += 1;
        }
        assert(all.take(i as int) =~= all);
    }

    /// Changes may have been missed: every enabled project is due for a
    /// snapshot.
    pub fn mark_all_dirty(&mut self, now: Duration)
        requires
            old(self)@.timely(now),
        ensures
            final(self)@ == old(self)@.all_marked(old(self)@.projects, now),
    {
        let ghost before = self@;
        let ghost all = views(self.projects@);
        let mut i: usize = 0;
        assert(all.take(0) =~= Seq::<RecordView>::empty());
        while i < self.projects.len()
            invariant
                i <= all.len(),
                all == views(self.projects@),
                self@.timely(now),
                self@ == before.all_marked(all.take(i as int), now),
            decreases all.len() - i,
        {
            proof {
                assert(all.take(i + 1).drop_last() =~= all.take(i as int));
                assert(all.take(i + 1).last() == self.projects@[i as int]@);
            }
            if self.projects[i].enabled {
                let id = self.projects[i].id.clone();
                self.dirty.mark_dirty(id.as_str(), now);
            }
            i += 1;
        }
        assert(all.take(i as int) =~= all);
    }
}

// ---------------------------------------------------------------------------
// When to read the registry

/// Two lists hold the same registrations in the same order.
pub open spec fn same_records(a: Seq<RecordView>, b: Seq<RecordView>) -> bool {
    a.len() == b.len() && forall|i: int| 0 <= i < a.len() ==> same_record(#[trigger] a[i], b[i])
}

impl ServerView {
    pub open spec fn reload_due(self, now: Duration) -> bool {
        self.registry_due matches Some(deadline) && deadline.nanos <= now.nanos
    }

    pub open spec fn poll_due(self, now: Duration) -> bool {
        self.registry_poll_due.nanos <= now.nanos
    }
}

impl Server {
    /// Whether the registry changed and is to be read now; asks only once.
    pub fn registry_reload_due(&mut self, now: Duration) -> (due: bool)
        ensures
            due == old(self)@.reload_due(now),
            final(self)@ == if due { ServerView { registry_due: None, ..old(self)@ } } else { old(self)@ },
    {
        match self.registry_due {
            Some(deadline) => {
                if now.reached(deadline) {
                    self.registry_due = None;
                    true
                } else {
                    false
                }
            },
            None => false,
        }
    }

    /// Whether it is time to look at the registry anyway.
    pub fn registry_poll_due(&mut self, now: Duration) -> (due: bool)
        requires
            old(self)@.timely(now),
        ensures
            due == old(self)@.poll_due(now),
            final(self)@ == if due {
                ServerView { registry_poll_due: after(now, REGISTRY_POLL_NANOS), ..old(self)@ }
            } else {
                old(self)@
            },
    {
        if now.reached(self.registry_poll_due) {
            self.registry_poll_due = now.plus(Duration { nanos: REGISTRY_POLL_NANOS });
            true
        } else {
            false
        }
    }

    /// Whether a registry differs from the present one.
    pub fn registry_changed(&self, projects: &Vec<ProjectRecord>) -> (changed: bool)
        ensures
            changed == !same_records(self@.projects, views(projects@)),
    {
        if self.projects.len() != projects.len() {
            return true;
        }
        let mut i: usize = 0;
        while i < projects.len()
            invariant
                i <= projects@.len(),
                self.projects@.len() == projects@.len(),
                forall|j: int| 0 <= j < i ==> same_record(#[trigger] self@.projects[j], views(projects@)[j]),
            decreases projects@.len() - i,
        {
            assert(self@.projects[i as int] == self.projects@[i as int]@);
            assert(views(projects@)[i as int] == projects@[i as int]@);
            if !self.projects[i].same(&projects[i]) {
                return true;
            }
            i += 1;
        }
        false
    }
}

// ---------------------------------------------------------------------------
// Watches

/// An enabled project is gone, disabled or elsewhere.
pub open spec fn leaves(previous: RecordView, next: Option<RecordView>) -> bool {
    previous.enabled && match next {
        None => true,
        Some(next) => !next.enabled || !same_path(next.path, previous.path),
    }
}

/// A project is new, newly enabled or elsewhere.
pub open spec fn arrives(next: RecordView, previous: Option<RecordView>) -> bool {
    match previous {
        None => true,
        Some(previous) => !previous.enabled || !same_path(previous.path, next.path),
    }
}

/// The projects whose directories are no longer to be watched.
pub open spec fn unwatched(old: Seq<RecordView>, new: Seq<RecordView>) -> Seq<RecordView>
    decreases old.len(),
{
    if old.len() == 0 {
        Seq::empty()
    } else if leaves(old.last(), record_with(new, old.last().id)) {
        unwatched(old.drop_last(), new).push(old.last())
    } else {
        unwatched(old.drop_last(), new)
    }
}

/// What is still to be watched once some projects are not.
pub open spec fn pending_without(pending: Seq<Seq<char>>, list: Seq<RecordView>) -> Seq<Seq<char>>
    decreases list.len(),
{
    if list.len() == 0 {
        pending
    } else {
        texts_except(pending_without(pending, list.drop_last()), list.last().id)
    }
}

/// A project is to be watched now.
pub open spec fn watch_wanted(next: RecordView, old: Seq<RecordView>, pending: Seq<Seq<char>>) -> bool {
    next.enabled && (arrives(next, record_with(old, next.id)) || pending.contains(next.id))
}

/// The projects whose directories are to be watched.
pub open spec fn watched(new: Seq<RecordView>, old: Seq<RecordView>, pending: Seq<Seq<char>>) -> Seq<RecordView>
    decreases new.len(),
{
    if new.len() == 0 {
        Seq::empty()
    } else if watch_wanted(new.last(), old, pending) {
        watched(new.drop_last(), old, pending).push(new.last())
    } else {
        watched(new.drop_last(), old, pending)
    }
}

/// What is still to be watched after the attempts, of which some failed.
pub open spec fn pending_after(new: Seq<RecordView>, old: Seq<RecordView>, pending: Seq<Seq<char>>, failed: Seq<Seq<char>>) -> Seq<Seq<char>>
    decreases new.len(),
{
    if new.len() == 0 {
        pending
    } else {
        let before = pending_after(new.drop_last(), old, pending, failed);
        let next = new.last();
        if watch_wanted(next, old, pending) {
            if failed.contains(next.id) {
                texts_with(before, next.id)
            } else {
                texts_except(before, next.id)
            }
        } else if !next.enabled {
            texts_except(before, next.id)
        } else {
            before
        }
    }
}

/// The projects that were waiting to be watched and now are.
pub open spec fn retried(new: Seq<RecordView>, old: Seq<RecordView>, pending: Seq<Seq<char>>, failed: Seq<Seq<char>>) -> Seq<Seq<char>>
    decreases new.len(),
{
    if new.len() == 0 {
        Seq::empty()
    } else {
        let before = retried(new.drop_last(), old, pending, failed);
        let next = new.last();
        if watch_wanted(next, old, pending) && !failed.contains(next.id) && pending.contains(next.id) {
            before.push(next.id)
        } else {
            before
        }
    }
}

pub(crate) fn lookup(list: &Vec<ProjectRecord>, id: &str) -> (record: Option<ProjectRecord>)
    ensures
        option_view(record) == record_with(views(list@), id@),
{
    match find_record(list, id) {
        Some(at) => Some(list[at].clone()),
        None => None,
    }
}

fn does_leave(previous: &ProjectRecord, next: &Option<ProjectRecord>) -> (r: bool)
    ensures
        r == leaves(previous@, option_view(*next)),
{
    previous.enabled && match next {
        None => true,
        Some(next) => !next.enabled || !paths_equal(next.path.as_str(), previous.path.as_str()),
    }
}

pub(crate) fn is_watch_wanted(next: &ProjectRecord, old: &Vec<ProjectRecord>, pending: &Vec<String>) -> (r: bool)
    ensures
        r == watch_wanted(next@, views(old@), views(pending@)),
{
    if !next.enabled {
        return false;
    }
    let arrived = match lookup(old, next.id.as_str()) {
        None => true,
        Some(previous) => !previous.enabled || !paths_equal(previous.path.as_str(), next.path.as_str()),
    };
    arrived || holds_text(pending, next.id.as_str())
}

pub(crate) fn find_unwatched(old: &Vec<ProjectRecord>, new: &Vec<ProjectRecord>) -> (list: Vec<ProjectRecord>)
    ensures
        views(list@) == unwatched(views(old@), views(new@)),
{
    let ghost all = views(old@);
    let mut list: Vec<ProjectRecord> = Vec::new();
    let mut i: usize = 0;
    assert(all.take(0) =~= Seq::<RecordView>::empty());
    assert(views(list@) =~= Seq::<RecordView>::empty());
    while i < old.len()
        invariant
            i <= old@.len(),
            all == views(old@),
            views(list@) == unwatched(all.take(i as int), views(new@)),
        decreases old@.len() - i,
    {
        proof {
            assert(all.take(i + 1).drop_last() =~= all.take(i as int));
            assert(all.take(i + 1).last() == old@[i as int]@);
        }
        let next = lookup(new, old[i].id.as_str());
        if does_leave(&old[i], &next) {
            let record = old[i].clone();
            proof {
                views_push(list@, record);
            }
            list.push(record);
        }
        i += 1;
    }
    assert(all.take(i as int) =~= all);
    list
}

/// A copy of the texts but for one.
pub(crate) fn without_text(list: &Vec<String>, text: &str) -> (rest: Vec<String>)
    ensures
        views(rest@) == texts_except(views(list@), text@),
{
    let ghost all = views(list@);
    let mut rest: Vec<String> = Vec::new();
    let mut i: usize = 0;
    assert(all.take(0) =~= Seq::<Seq<char>>::empty());
    assert(views(rest@) =~= Seq::<Seq<char>>::empty());
    while i < list.len()
        invariant
            i <= list@.len(),
            all == views(list@),
            views(rest@) == texts_except(all.take(i as int), text@),
        decreases list@.len() - i,
    {
        proof {
            assert(all.take(i + 1).drop_last() =~= all.take(i as int));
            assert(all.take(i + 1).last() == list@[i as int]@);
        }
        if !same_text(list[i].as_str(), text) {
            let kept = list[i].clone();
            proof {
                views_push(rest@, kept);
            }
            rest.push(kept);
        }
        i += 1;
    }
    assert(all.take(i as int) =~= all);
    rest
}

fn drop_pending(pending: Vec<String>, list: &Vec<ProjectRecord>) -> (rest: Vec<String>)
    ensures
        views(rest@) == pending_without(views(pending@), views(list@)),
{
    let ghost all = views(list@);
    let ghost start = views(pending@);
    let mut rest = pending;
    let mut i: usize = 0;
    assert(all.take(0) =~= Seq::<RecordView>::empty());
    while i < list.len()
        invariant
            i <= list@.len(),
            all == views(list@),
            views(rest@) == pending_without(start, all.take(i as int)),
        decreases list@.len() - i,
    {
        proof {
            assert(all.take(i + 1).drop_last() =~= all.take(i as int));
            assert(all.take(i + 1).last() == list@[i as int]@);
        }
        rest = without_text(&rest, list[i].id.as_str());
        i += 1;
    }
    assert(all.take(i as int) =~= all);
    rest
}

pub(crate) fn find_watched(new: &Vec<ProjectRecord>, old: &Vec<ProjectRecord>, pending: &Vec<String>) -> (list: Vec<ProjectRecord>)
    ensures
        views(list@) == watched(views(new@), views(old@), views(pending@)),
{
    let ghost all = views(new@);
    let mut list: Vec<ProjectRecord> = Vec::new();
    let mut i: usize = 0;
    assert(all.take(0) =~= Seq::<RecordView>::empty());
    assert(views(list@) =~= Seq::<RecordView>::empty());
    while i < new.len()
        invariant
            i <= new@.len(),
            all == views(new@),
            views(list@) == watched(all.take(i as int), views(old@), views(pending@)),
        decreases new@.len() - i,
    {
        proof {
            assert(all.take(i + 1).drop_last() =~= all.take(i as int));
            assert(all.take(i + 1).last() == new@[i as int]@);
        }
        if is_watch_wanted(&new[i], old, pending) {
            let record = new[i].clone();
            proof {
                views_push(list@, record);
            }
            list.push(record);
        }
        i += 1;
    }
    assert(all.take(i as int) =~= all);
    list
}

/// The enabled projects, in order.
pub open spec fn enabled_of(projects: Seq<RecordView>) -> Seq<RecordView>
    decreases projects.len(),
{
    if projects.len() == 0 {
        Seq::empty()
    } else if projects.last().enabled {
        enabled_of(projects.drop_last()).push(projects.last())
    } else {
        enabled_of(projects.drop_last())
    }
}

/// Before the first registry nothing is watched, so every enabled project is
/// to be.
proof fn first_watches_are_enabled(projects: Seq<RecordView>)
    ensures
        watched(projects, Seq::empty(), Seq::empty()) == enabled_of(projects),
    decreases projects.len(),
{
    if projects.len() > 0 {
        first_watches_are_enabled(projects.drop_last());
    }
}

/// The projects to watch from the start.
pub fn first_watches(projects: &Vec<ProjectRecord>) -> (list: Vec<ProjectRecord>)
    ensures
        views(list@) == enabled_of(views(projects@)),
        views(list@) == watched(views(projects@), Seq::empty(), Seq::empty()),
{
    let old: Vec<ProjectRecord> = Vec::new();
    let pending: Vec<String> = Vec::new();
    proof {
        first_watches_are_enabled(views(projects@));
        assert(views(old@) =~= Seq::<RecordView>::empty());
        assert(views(pending@) =~= Seq::<Seq<char>>::empty());
    }
    find_watched(projects, &old, &pending)
}

/// What to stop watching and what to watch when the registry changes.
pub struct WatchPlan {
    pub unwatch: Vec<ProjectRecord>,
    pub watch: Vec<ProjectRecord>,
}

impl Server {
    pub(crate) fn pending_of_remaining(&self, unwatch: &Vec<ProjectRecord>) -> (pending: Vec<String>)
        ensures
            views(pending@) == pending_without(self@.pending_watches, views(unwatch@)),
    {
        let copy = crate::views::copied_texts(&self.pending_watches);
        drop_pending(copy, unwatch)
    }

    /// Plans the watches for a new registry.
    pub fn plan_watches(&self, projects: &Vec<ProjectRecord>) -> (plan: WatchPlan)
        ensures
            views(plan.unwatch@) == unwatched(self@.projects, views(projects@)),
            views(plan.watch@) == watched(
                views(projects@),
                self@.projects,
                pending_without(self@.pending_watches, unwatched(self@.projects, views(projects@))),
            ),
    {
        let unwatch = find_unwatched(&self.projects, projects);
        let pending = self.pending_of_remaining(&unwatch);
        let watch = find_watched(projects, &self.projects, &pending);
        WatchPlan { unwatch, watch }
    }
}

// ---------------------------------------------------------------------------
// Attempts to watch what could not be watched before

/// What everyone is told about a project.
pub open spec fn updated_payload(id: Seq<char>, path: Seq<char>, enabled: bool) -> JsonView {
    JsonView::Object(
        Map::empty()
            .insert("projectId"@, JsonView::Text(id))
            .insert("path"@, JsonView::Text(path))
            .insert("enabled"@, JsonView::Bool(enabled)),
    )
}

/// The enabled projects that are still to be watched.
pub open spec fn still_pending(projects: Seq<RecordView>, pending: Seq<Seq<char>>) -> Seq<RecordView>
    decreases projects.len(),
{
    if projects.len() == 0 {
        Seq::empty()
    } else if projects.last().enabled && pending.contains(projects.last().id) {
        still_pending(projects.drop_last(), pending).push(projects.last())
    } else {
        still_pending(projects.drop_last(), pending)
    }
}

impl ServerView {
    /// It is time to try again.
    pub open spec fn retry_due(self, now: Duration) -> bool {
        self.pending_watches.len() > 0 && match self.watch_retry_due {
            Some(deadline) => deadline.nanos <= now.nanos,
            None => true,
        }
    }

    pub open spec fn retry_scheduled(self, now: Duration) -> ServerView {
        ServerView {
            watch_retry_due: if self.pending_watches.len() > 0 {
                Some(after(now, WATCH_RETRY_NANOS))
            } else {
                None
            },
            ..self
        }
    }

    pub open spec fn projects_announced(self, list: Seq<RecordView>) -> ServerView
        decreases list.len(),
    {
        if list.len() == 0 {
            self
        } else {
            self.projects_announced(list.drop_last()).broadcast(
                "project.updated"@,
                updated_payload(list.last().id, list.last().path, true),
            )
        }
    }

    /// Some projects are watched at last.
    pub open spec fn watches_installed(self, installed: Seq<RecordView>, now: Duration) -> ServerView {
        ServerView { pending_watches: pending_without(self.pending_watches, installed), ..self }.retry_scheduled(
            now,
        ).projects_announced(installed)
    }
}

impl Server {
    pub(crate) fn announce(&mut self, id: &str, path: &str, enabled: bool)
        ensures
            final(self)@ == old(self)@.broadcast("project.updated"@, updated_payload(id@, path@, enabled)),
    {
        let payload = JsonObject::new()
            .with("projectId", Json::text(id))
            .with("path", Json::text(path))
            .with("enabled", Json::Bool(enabled))
            .done();
        self.broadcast_lifecycle_event("project.updated", &payload);
    }

    /// The projects to try to watch again, if it is time for that.
    pub fn pending_watch_targets(&mut self, now: Duration) -> (targets: Option<Vec<ProjectRecord>>)
        ensures
            targets is Some == old(self)@.retry_due(now),
            targets matches Some(list) ==> views(list@) == still_pending(old(self)@.projects, old(self)@.pending_watches),
            final(self)@ == if old(self)@.pending_watches.len() == 0 {
                ServerView { watch_retry_due: None, ..old(self)@ }
            } else {
                old(self)@
            },
    {
        if self.pending_watches.len() == 0 {
            self.watch_retry_due = None;
            return None;
        }
        match self.watch_retry_due {
            Some(deadline) => {
                if !now.reached(deadline) {
                    return None;
                }
            },
            None => {},
        }
        let ghost all = views(self.projects@);
        let mut list: Vec<ProjectRecord> = Vec::new();
        let mut i: usize = 0;
        assert(all.take(0) =~= Seq::<RecordView>::empty());
        assert(views(list@) =~= Seq::<RecordView>::empty());
        while i < self.projects.len()
            invariant
                i <= self.projects@.len(),
                all == views(self.projects@),
                views(list@) == still_pending(all.take(i as int), views(self.pending_watches@)),
            decreases self.projects@.len() - i,
        {
            proof {
                assert(all.take(i + 1).drop_last() =~= all.take(i as int));
                assert(all.take(i + 1).last() == self.projects@[i as int]@);
            }
            if self.projects[i].enabled && holds_text(&self.pending_watches, self.projects[i].id.as_str()) {
                let record = self.projects[i].clone();
                proof {
                    views_push(list@, record);
                }
                list.push(record);
            }
            i += 1;
        }
        assert(all.take(i as int) =~= all);
        Some(list)
    }

    pub(crate) fn schedule_retry(&mut self, now: Duration)
        requires
            old(self)@.timely(now),
        ensures
            final(self)@ == old(self)@.retry_scheduled(now),
    {
        if self.pending_watches.len() > 0 {
            self.watch_retry_due = Some(now.plus(Duration { nanos: WATCH_RETRY_NANOS }));
        } else {
            self.watch_retry_due = None;
        }
    }

    /// Takes note of the projects that are watched at last.
    pub fn watches_installed(&mut self, installed: &Vec<ProjectRecord>, now: Duration)
        requires
            old(self)@.timely(now),
        ensures
            final(self)@ == old(self)@.watches_installed(views(installed@), now),
    {
        let pending = self.pending_of_remaining(installed);
        self.pending_watches = pending;
        self.schedule_retry(now);
        let ghost start = self@;
        let ghost all = views(installed@);
        let mut i: usize = 0;
        assert(all.take(0) =~= Seq::<RecordView>::empty());
        while i < installed.len()
            invariant
                i <= installed@.len(),
                all == views(installed@),
                self@ == start.projects_announced(all.take(i as int)),
            decreases installed@.len() - i,
        {
            proof {
                assert(all.take(i + 1).drop_last() =~= all.take(i as int));
                assert(all.take(i + 1).last() == installed@[i as int]@);
            }
            self.announce(installed[i].id.as_str(), installed[i].path.as_str(), true);
            i += 1;
        }
        assert(all.take(i as int) =~= all);
    }
}

} // verus!
