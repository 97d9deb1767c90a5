//! What the bookkeeping of a project makes of what happens to it.

use crate::json::json_bytes;
use crate::project::{ProjectionView, RecordView, SnapshotView};
use crate::project_json::projection_json;
use crate::state::{cache_failed, cache_replaced, due_projects_can_be_listed, fresh_cache, projected, retained_size, stale_marks,
    CacheFailureView, CacheView, DirtyState, DirtyView};
use crate::time::Duration;
use vstd::prelude::*;

verus! {

// ---------------------------------------------------------------------------
// The tracker

/// A tracker knows as much of a project as another does.
pub open spec fn knows_the_same(a: DirtyView, b: DirtyView, id: Seq<char>) -> bool {
    &&& a.projects.dom().contains(id) == b.projects.dom().contains(id)
    &&& a.projects.dom().contains(id) ==> a.projects[id] == b.projects[id]
}

/// The project waits for the end of its quiet window.
pub open spec fn waits_until(view: DirtyView, id: Seq<char>, nanos: int) -> bool {
    view.projects.dom().contains(id) && (view.projects[id] matches DirtyState::Debouncing(deadline) && deadline.nanos == nanos)
}

/// The project's snapshot is being taken; `again` if it changed meanwhile.
pub open spec fn runs(view: DirtyView, id: Seq<char>, again: bool) -> bool {
    view.projects.dom().contains(id) && view.projects[id] == (DirtyState::Running { dirty_again: again })
}

/// The tracker has nothing to do for the project.
pub open spec fn rests(view: DirtyView, id: Seq<char>) -> bool {
    !view.projects.dom().contains(id)
}

/// A change sets the deadline one window from now, each change anew, unless the
/// snapshot is being taken: then it is to be taken once more.
pub proof fn changes_are_waited_out(view: DirtyView, id: Seq<char>, now: Duration, other: Seq<char>)
    requires
        now.nanos + view.window.nanos <= u128::MAX,
    ensures
        rests(view, id) ==> waits_until(view.marked(id, now), id, now.nanos + view.window.nanos),
        forall|deadline: int| #[trigger] waits_until(view, id, deadline) ==> waits_until(
            view.marked(id, now),
            id,
            now.nanos + view.window.nanos,
        ),
        runs(view, id, false) || runs(view, id, true) ==> runs(view.marked(id, now), id, true),
        other != id ==> knows_the_same(view.marked(id, now), view, other),
        view.marked(id, now).window == view.window,
{
}

/// A project is due from its deadline on, not before, and never while its
/// snapshot is being taken; whatever is due is started, and nothing else
/// changes.
pub proof fn due_projects_are_started(view: DirtyView, id: Seq<char>, now: Duration)
    requires
        view.projects.dom().finite(),
    ensures
        view.due_order(now).contains(id) <==> exists|deadline: int| #[trigger] waits_until(view, id, deadline) && deadline <= now.nanos,
        view.due_order(now).contains(id) ==> runs(view.started_due(now), id, false),
        !view.due_order(now).contains(id) ==> knows_the_same(view.started_due(now), view, id),
        view.started_due(now).window == view.window,
{
    due_projects_can_be_listed(view, now);
    assert(view.due_order(now).contains(id) <==> view.is_due(id, now));
    if view.is_due(id, now) {
        assert(waits_until(view, id, view.projects[id]->Debouncing_0.nanos as int));
    }
}

/// The projects that are due are handed out in the order of their ids, each
/// once.
pub proof fn due_projects_come_in_order(view: DirtyView, now: Duration, i: int, j: int)
    requires
        view.projects.dom().finite(),
        0 <= i < j < view.due_order(now).len(),
    ensures
        crate::text::text_less(view.due_order(now)[i], view.due_order(now)[j]),
        view.due_order(now)[i] != view.due_order(now)[j],
{
    due_projects_can_be_listed(view, now);
    crate::text::text_order_irreflexive(view.due_order(now)[i]);
}

/// A snapshot that is asked for is being taken, as it is if it was before.
pub proof fn asking_starts_at_once(view: DirtyView, id: Seq<char>, other: Seq<char>)
    ensures
        runs(view, id, true) ==> runs(view.started(id), id, true),
        !runs(view, id, true) ==> runs(view.started(id), id, false),
        other != id ==> knows_the_same(view.started(id), view, other),
        view.started(id).window == view.window,
{
}

/// The end of a snapshot leaves the project at rest, or, if it changed
/// meanwhile, waiting for one window from then on.
pub proof fn ends_are_final_unless_changed(view: DirtyView, id: Seq<char>, now: Duration, other: Seq<char>)
    requires
        now.nanos + view.window.nanos <= u128::MAX,
    ensures
        runs(view, id, false) ==> rests(view.ended(id, now), id),
        runs(view, id, true) ==> waits_until(view.ended(id, now), id, now.nanos + view.window.nanos),
        !runs(view, id, false) && !runs(view, id, true) ==> knows_the_same(view.ended(id, now), view, id),
        other != id ==> knows_the_same(view.ended(id, now), view, other),
        view.ended(id, now).window == view.window,
{
}

/// A project that is forgotten is at rest, whatever it was doing.
pub proof fn forgotten_projects_rest(view: DirtyView, id: Seq<char>, other: Seq<char>)
    ensures
        rests(view.forgotten(id), id),
        other != id ==> knows_the_same(view.forgotten(id), view, other),
        view.forgotten(id).window == view.window,
{
}

// ---------------------------------------------------------------------------
// The cache

/// A new cache knows its project and nothing else.
pub proof fn new_caches_are_empty(record: RecordView)
    ensures
        fresh_cache(record).record == record,
        fresh_cache(record).projection is None,
        fresh_cache(record).last_error is None,
        fresh_cache(record).last_successful_generation is None,
        fresh_cache(record).retained_bytes == 0,
{
}

/// What is shown of a snapshot belongs to the project that the cache is of,
/// says nothing else than the snapshot, and lacks nothing.
pub proof fn good_snapshots_are_shown_as_they_are(cache: CacheView, snapshot: SnapshotView, bytes: usize)
    ensures
        ({
            let after = cache_replaced(cache, snapshot, bytes);
            &&& after.record == cache.record
            &&& after.projection matches Some(shown) && shown.project_id == cache.record.id && shown.path == cache.record.path
                && shown.snapshot == snapshot && shown.degraded.len() == 0
            &&& after.last_error is None
            &&& after.last_successful_generation == Some(snapshot.generated_at)
            &&& after.retained_bytes == bytes
        }),
{
}

/// After a failure the last good snapshot is shown on, unchanged but for one
/// mark, and the failure is known; however many failures there are, there is
/// one mark.
pub proof fn old_snapshots_are_shown_as_stale(cache: CacheView, message: Seq<char>, exit_code: Option<i32>)
    ensures
        ({
            let after = cache_failed(cache, message, exit_code);
            &&& after.record == cache.record
            &&& cache.projection is None ==> after.projection is None
            &&& cache.projection matches Some(old) ==> (after.projection matches Some(shown) && shown.project_id == old.project_id
                && shown.path == old.path && shown.snapshot == old.snapshot && shown.degraded.len() == 1 && shown.degraded[0]
                == "snapshot_stale"@)
            &&& after.last_error == Some(CacheFailureView { message, exit_code })
            &&& after.last_successful_generation == cache.last_successful_generation
            &&& after.retained_bytes == cache.retained_bytes
        }),
{
}

/// A snapshot counts with the bytes of its largest form, which is the one with
/// the mark of age.
pub proof fn snapshots_count_in_their_largest_form(record: RecordView, snapshot: SnapshotView)
    ensures
        retained_size(record, snapshot) == json_bytes(
            projection_json(
                ProjectionView { project_id: record.id, path: record.path, snapshot, degraded: seq!["snapshot_stale"@] },
            ),
        ).len(),
        stale_marks() == seq!["snapshot_stale"@],
        projected(record, snapshot, stale_marks()).snapshot == snapshot,
{
}

} // verus!
