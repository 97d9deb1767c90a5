//! What a new registry leaves alone: projects whose registration is the same
//! keep everything, and those that stay where they are keep their snapshot.

use crate::project::RecordView;
use crate::server::events::ending_touches_clients_only;
use crate::server::model::{record_with, subscriptions_beside, subscriptions_for, texts_except, waiters_beside, waiters_for,
    ServerView, SubscriptionView, WaiterView};
use crate::server::registry_watch::{pending_after, pending_without, retried, unwatched, updated_payload};
use crate::server::replacement::{added_ids, broadcasting_only_sends, ending_only_sends, ends, event_enabled, event_path,
    ids_of, moves, same_registration, stays};
use crate::server::runs::asking_starts_runs;
use crate::state::CacheView;
use crate::time::Duration;
use vstd::prelude::*;

verus! {

/// The two agree on one project: its cache, the number of its registration,
/// its followers and those who wait for it.
pub open spec fn same_project(a: ServerView, b: ServerView, id: Seq<char>) -> bool {
    &&& a.caches.dom().contains(id) == b.caches.dom().contains(id)
    &&& a.caches.dom().contains(id) ==> a.caches[id] == b.caches[id]
    &&& a.generations.dom().contains(id) == b.generations.dom().contains(id)
    &&& a.generations.dom().contains(id) ==> a.generations[id] == b.generations[id]
    &&& subscriptions_for(a.subscriptions, id) == subscriptions_for(b.subscriptions, id)
    &&& waiters_for(a.waiters, id) == waiters_for(b.waiters, id)
}

proof fn followers_of_others_stay(list: Seq<SubscriptionView>, project: Seq<char>, other: Seq<char>)
    requires
        project != other,
    ensures
        subscriptions_for(subscriptions_beside(list, project), other) == subscriptions_for(list, other),
    decreases list.len(),
{
    if list.len() > 0 {
        followers_of_others_stay(list.drop_last(), project, other);
        let before = subscriptions_beside(list.drop_last(), project);
        let rest = subscriptions_beside(list, project);
        if list.last().project_id != project {
            assert(rest.drop_last() =~= before);
        }
    }
}

proof fn waiters_for_others_stay(list: Seq<WaiterView>, project: Seq<char>, other: Seq<char>)
    requires
        project != other,
    ensures
        waiters_for(waiters_beside(list, project), other) == waiters_for(list, other),
    decreases list.len(),
{
    if list.len() > 0 {
        waiters_for_others_stay(list.drop_last(), project, other);
        let before = waiters_beside(list.drop_last(), project);
        let rest = waiters_beside(list, project);
        if list.last().project_id != project {
            assert(rest.drop_last() =~= before);
        }
    }
}

/// Requests that wait on for a moved project are not for others.
proof fn displacing_leaves_others(view: ServerView, list: Seq<WaiterView>, restart_gets: bool, other: Seq<char>)
    requires
        forall|i: int| 0 <= i < list.len() ==> (#[trigger] list[i]).project_id != other,
    ensures
        ({
            let after = view.waiters_displaced(list, restart_gets);
            &&& waiters_for(after.waiters, other) == waiters_for(view.waiters, other)
            &&& after.subscriptions == view.subscriptions
        }),
    decreases list.len(),
{
    if list.len() > 0 {
        assert forall|i: int| 0 <= i < list.drop_last().len() implies (#[trigger] list.drop_last()[i]).project_id != other by {
            assert(list[i] == list.drop_last()[i]);
        }
        displacing_leaves_others(view, list.drop_last(), restart_gets, other);
        let before = view.waiters_displaced(list.drop_last(), restart_gets);
        let after = view.waiters_displaced(list, restart_gets);
        assert(list[list.len() - 1].project_id != other);
        if after.waiters.len() > before.waiters.len() {
            assert(after.waiters.drop_last() =~= before.waiters);
        }
    }
}

proof fn waiters_for_are_for(list: Seq<WaiterView>, project: Seq<char>)
    ensures
        forall|i: int| 0 <= i < waiters_for(list, project).len() ==> (#[trigger] waiters_for(list, project)[i]).project_id == project,
    decreases list.len(),
{
    if list.len() > 0 {
        waiters_for_are_for(list.drop_last(), project);
        let own = waiters_for(list, project);
        assert forall|i: int| 0 <= i < own.len() implies (#[trigger] own[i]).project_id == project by {
            let before = waiters_for(list.drop_last(), project);
            if i < before.len() {
                assert(before[i] == own[i]);
            }
        }
    }
}

proof fn ending_leaves_others(view: ServerView, project: Seq<char>, reason: Seq<char>, restart_gets: bool, other: Seq<char>)
    requires
        project != other,
    ensures
        same_project(view.project_ended(project, reason, restart_gets), view, other),
{
    let taken = ServerView { subscriptions: subscriptions_beside(view.subscriptions, project), ..view };
    let list = subscriptions_for(view.subscriptions, project);
    ending_only_sends(taken, list, reason);
    ending_touches_clients_only(view, project, reason, restart_gets);
    let told = taken.subscriptions_ended(list, reason);
    followers_of_others_stay(view.subscriptions, project, other);
    waiters_for_others_stay(view.waiters, project, other);
    waiters_for_are_for(told.waiters, project);
    displacing_leaves_others(told.waiters_taken(project), waiters_for(told.waiters, project), restart_gets, other);
}

pub(crate) proof fn a_registration_leaves_others(view: ServerView, id: Seq<char>, previous: Option<RecordView>, next: Option<RecordView>, watch_retried: bool, other: Seq<char>)
    requires
        id != other,
    ensures
        same_project(view.registration_changed(id, previous, next, watch_retried).0, view, other),
{
    if !(same_registration(previous, next) && !watch_retried) {
        let moved = view.renumbered(id, previous, next).cache_moved(id, previous, next);
        let emptied = ServerView { deferred: texts_except(moved.deferred, id), ..moved };
        let restart_gets = moves(previous, next);
        ending_leaves_others(emptied, id, "project_removed"@, restart_gets, other);
        let closed = if ends(previous, next) {
            moved.project_closed(id, restart_gets)
        } else {
            moved
        };
        broadcasting_only_sends(
            closed,
            closed.connections,
            "project.updated"@,
            updated_payload(id, event_path(previous, next), event_enabled(next)),
        );
    }
}

/// What is known of a project that stays where it is.
spec fn same_knowledge(a: ServerView, b: ServerView, id: Seq<char>) -> bool {
    &&& a.caches.dom().contains(id) == b.caches.dom().contains(id)
    &&& a.caches.dom().contains(id) ==> a.caches[id] == (CacheView { record: a.caches[id].record, ..b.caches[id] })
}

proof fn a_staying_project_keeps_its_cache(view: ServerView, id: Seq<char>, previous: Option<RecordView>, next: Option<RecordView>, watch_retried: bool)
    requires
        stays(previous, next),
    ensures
        same_knowledge(view.registration_changed(id, previous, next, watch_retried).0, view, id),
{
    if !(same_registration(previous, next) && !watch_retried) {
        let moved = view.renumbered(id, previous, next).cache_moved(id, previous, next);
        let emptied = ServerView { deferred: texts_except(moved.deferred, id), ..moved };
        let restart_gets = moves(previous, next);
        ending_touches_clients_only(emptied, id, "project_removed"@, restart_gets);
        let closed = if ends(previous, next) {
            moved.project_closed(id, restart_gets)
        } else {
            moved
        };
        broadcasting_only_sends(
            closed,
            closed.connections,
            "project.updated"@,
            updated_payload(id, event_path(previous, next), event_enabled(next)),
        );
    }
}

proof fn registrations_leave_others(view: ServerView, ids: Seq<Seq<char>>, old: Seq<RecordView>, new: Seq<RecordView>, watch_retried: Seq<Seq<char>>, id: Seq<char>)
    ensures
        ({
            let changed = view.registrations_changed(ids, old, new, watch_retried).0;
            &&& same_registration(record_with(old, id), record_with(new, id)) && !watch_retried.contains(id) ==> same_project(changed, view, id)
            &&& stays(record_with(old, id), record_with(new, id)) ==> same_knowledge(changed, view, id)
        }),
    decreases ids.len(),
{
    if ids.len() > 0 {
        registrations_leave_others(view, ids.drop_last(), old, new, watch_retried, id);
        let before = view.registrations_changed(ids.drop_last(), old, new, watch_retried).0;
        let next = ids.last();
        if next != id {
            a_registration_leaves_others(
                before,
                next,
                record_with(old, next),
                record_with(new, next),
                watch_retried.contains(next),
                id,
            );
        } else if stays(record_with(old, id), record_with(new, id)) {
            a_staying_project_keeps_its_cache(
                before,
                id,
                record_with(old, id),
                record_with(new, id),
                watch_retried.contains(id),
            );
        }
    }
}

pub(crate) proof fn restarts_leave_projects(view: ServerView, ids: Seq<Seq<char>>, now: Duration)
    ensures
        ({
            let after = view.all_started(ids, now);
            &&& after.caches == view.caches
            &&& after.generations == view.generations
            &&& after.subscriptions == view.subscriptions
            &&& after.waiters == view.waiters
        }),
    decreases ids.len(),
{
    if ids.len() > 0 {
        restarts_leave_projects(view, ids.drop_last(), now);
        asking_starts_runs(view.all_started(ids.drop_last(), now), ids.last(), now);
    }
}

/// A project whose registration is the same in a new registry keeps its
/// cache, its followers and those who wait for it, whatever else the registry
/// changes, unless it could be watched only now.
pub proof fn unchanged_projects_keep_everything(view: ServerView, new: Seq<RecordView>, failed: Seq<Seq<char>>, now: Duration, id: Seq<char>)
    requires
        same_registration(record_with(view.projects, id), record_with(new, id)),
        !retried(new, view.projects, pending_without(view.pending_watches, unwatched(view.projects, new)), failed).contains(id),
    ensures
        same_project(view.registry_replaced(new, failed, now), view, id),
{
    let old = view.projects;
    let pending = pending_without(view.pending_watches, unwatched(old, new));
    let rewatched = ServerView { pending_watches: pending_after(new, old, pending, failed), ..view };
    let ids = ids_of(old) + added_ids(new, old);
    let again = retried(new, old, pending, failed);
    registrations_leave_others(rewatched, ids, old, new, again, id);
    let (changed, restart) = rewatched.registrations_changed(ids, old, new, again);
    restarts_leave_projects(ServerView { projects: new, ..changed }, restart, now);
}

/// A project that stays where it is keeps its last snapshot and its last
/// failure, even if it is renamed, disabled or asked with another command.
pub proof fn staying_projects_keep_their_snapshot(view: ServerView, new: Seq<RecordView>, failed: Seq<Seq<char>>, now: Duration, id: Seq<char>)
    requires
        stays(record_with(view.projects, id), record_with(new, id)),
        view.caches.dom().contains(id),
    ensures
        ({
            let after = view.registry_replaced(new, failed, now);
            &&& after.caches.dom().contains(id)
            &&& after.caches[id].projection == view.caches[id].projection
            &&& after.caches[id].last_error == view.caches[id].last_error
            &&& after.caches[id].retained_bytes == view.caches[id].retained_bytes
        }),
{
    let old = view.projects;
    let pending = pending_without(view.pending_watches, unwatched(old, new));
    let rewatched = ServerView { pending_watches: pending_after(new, old, pending, failed), ..view };
    let ids = ids_of(old) + added_ids(new, old);
    let again = retried(new, old, pending, failed);
    registrations_leave_others(rewatched, ids, old, new, again, id);
    let (changed, restart) = rewatched.registrations_changed(ids, old, new, again);
    restarts_leave_projects(ServerView { projects: new, ..changed }, restart, now);
}

} // verus!
