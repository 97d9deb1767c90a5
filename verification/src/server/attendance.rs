//! Nobody waits in vain: every waiting request is for a project that can be
//! asked, and its command runs or is about to, whatever happens.

use crate::envelope::{read_envelope, EnvelopeView, MethodView};
use crate::json::JsonView;
use crate::limits::Limits;
use crate::project::{ProjectionView, RecordView, SnapshotView};
use crate::protocol::ConnectionId;
use crate::server::caches::{added_ids_are_all, found_records_are_listed, listed_records_are_found};
use crate::server::events::{announcing_only_sends, answering_touches_clients_only, closing_touches_clients_only,
    dropping_touches_clients_only, ending_touches_clients_only, same_projects, stopping_touches_clients_only,
    telling_touches_clients_only, EventView};
use crate::server::membership::{ended_projects_are_not_followed, stopping_ends_everything, waiters_are_parted,
    waiters_off_are_others};
use crate::server::model::{active_place, record_place, record_with, same_run, subscription_id, subscriptions_beside,
    subscriptions_for, texts_except, waiters_for, RunView, ServerView, SubscriptionView, WaitKindView, WaiterView};
use crate::server::registry_watch::{pending_after, pending_without, retried, unwatched, updated_payload};
use crate::server::replacement::{added_ids, broadcasting_only_sends, ending_only_sends, ends, event_enabled, event_path,
    ids_of, moves, same_registration};
use crate::server::request::path_place;
use crate::server::runs::{active_place_is_right, asking_starts_runs, deferred_runs_start_in_order, queueing_keeps};
use crate::server::snapshots::{enabled_place, enabled_place_in_range};
use crate::server::turn::{first_generations, new_server};
use crate::snapshot::FailureView;
use crate::state::due_projects_can_be_listed;
use crate::time::Duration;
use vstd::prelude::*;

verus! {

/// A command for the project runs or is about to.
pub open spec fn underway(view: ServerView, id: Seq<char>) -> bool {
    view.is_active(id) || view.deferred.contains(id)
}

/// The project is registered and enabled, so that its command can be started.
pub open spec fn can_run(view: ServerView, id: Seq<char>) -> bool {
    enabled_place(view.projects, id) >= 0 && view.generations.dom().contains(id)
}

/// Only projects whose command runs or is about to are taken to be running.
pub open spec fn marks_are_true(view: ServerView) -> bool {
    &&& view.dirty.projects.dom().finite()
    &&& forall|id: Seq<char>| #[trigger] view.dirty.running(id) ==> underway(view, id)
}

/// No two projects share an id.
pub open spec fn ids_distinct(projects: Seq<RecordView>) -> bool {
    forall|i: int, j: int| 0 <= i < j < projects.len() ==> (#[trigger] projects[i]).id != (#[trigger] projects[j]).id
}

/// Every project's registration has a number.
pub open spec fn registrations_numbered(view: ServerView) -> bool {
    forall|i: int| 0 <= i < view.projects.len() ==> view.generations.dom().contains((#[trigger] view.projects[i]).id)
}

/// Every waiting request will be answered by a command that runs or is about
/// to.
pub open spec fn requests_attended(view: ServerView) -> bool {
    &&& forall|i: int|
        0 <= i < view.waiters.len() ==> can_run(view, (#[trigger] view.waiters[i]).project_id) && underway(
            view,
            view.waiters[i].project_id,
        )
    &&& marks_are_true(view)
    &&& ids_distinct(view.projects)
    &&& registrations_numbered(view)
}

// ---------------------------------------------------------------------------
// Starting

proof fn started_runs_are_active(active: Seq<RunView>, run: RunView, id: Seq<char>)
    ensures
        active_place(active.push(run), id) >= 0 <==> run.record.id == id || active_place(active, id) >= 0,
{
    active_place_is_right(active, id);
    assert(active.push(run).drop_last() =~= active);
}

proof fn others_stay_active(active: Seq<RunView>, at: int, id: Seq<char>)
    requires
        0 <= at < active.len(),
        active[at].record.id != id,
    ensures
        active_place(active.remove(at), id) >= 0 <==> active_place(active, id) >= 0,
{
    let left = active.remove(at);
    active_place_is_right(active, id);
    active_place_is_right(left, id);
    let p = active_place(active, id);
    let q = active_place(left, id);
    if p >= 0 {
        assert(left[if p < at { p } else { p - 1 }] == active[p]);
    }
    if q >= 0 {
        assert(left[q] == active[if q < at { q } else { q + 1 }]);
    }
}

proof fn others_stay_queued(list: Seq<Seq<char>>, id: Seq<char>)
    requires
        list.len() > 0,
        list.contains(id),
        list[0] != id,
    ensures
        list.drop_first().contains(id),
{
    let k = choose|k: int| 0 <= k < list.len() && list[k] == id;
    assert(list.drop_first()[k - 1] == id);
}

/// The state after the first deferred project was looked at.
spec fn first_taken(view: ServerView, now: Duration) -> ServerView {
    let id = view.deferred[0];
    let rest = ServerView { deferred: view.deferred.drop_first(), ..view };
    if rest.is_active(id) {
        rest
    } else {
        match rest.enabled_record(id) {
            None => rest.with_dirty(rest.dirty.ended(id, now)),
            Some(record) => rest.launched(record, now),
        }
    }
}

proof fn taking_the_first_keeps_marks(view: ServerView, now: Duration)
    requires
        view.deferred.len() > 0,
        marks_are_true(view),
    ensures
        marks_are_true(first_taken(view, now)),
{
    let head = view.deferred[0];
    let step = first_taken(view, now);
    enabled_place_in_range(view.projects, head);
    assert forall|id: Seq<char>| #[trigger] step.dirty.running(id) implies underway(step, id) by {
        assert(view.dirty.running(id));
        if view.deferred.contains(id) && id != head {
            others_stay_queued(view.deferred, id);
        }
        if step.active.len() > view.active.len() {
            started_runs_are_active(view.active, step.active.last(), id);
            assert(step.active =~= view.active.push(step.active.last()));
        }
    }
}

proof fn taking_the_first_keeps_underway(view: ServerView, id: Seq<char>, now: Duration)
    requires
        view.deferred.len() > 0,
        can_run(view, id),
        underway(view, id),
    ensures
        underway(first_taken(view, now), id),
        can_run(first_taken(view, now), id),
{
    let head = view.deferred[0];
    let step = first_taken(view, now);
    enabled_place_in_range(view.projects, head);
    if view.deferred.contains(id) && id != head {
        others_stay_queued(view.deferred, id);
    }
    if step.active.len() > view.active.len() {
        started_runs_are_active(view.active, step.active.last(), id);
        assert(step.active =~= view.active.push(step.active.last()));
    }
}

proof fn launching_keeps_marks(view: ServerView, now: Duration)
    requires
        marks_are_true(view),
    ensures
        marks_are_true(view.deferred_launched(now)),
    decreases view.deferred.len(),
{
    if !(view.active.len() >= view.limits.active_snapshots || view.deferred.len() == 0) {
        taking_the_first_keeps_marks(view, now);
        launching_keeps_marks(first_taken(view, now), now);
    }
}

pub(crate) proof fn launching_keeps_underway(view: ServerView, id: Seq<char>, now: Duration)
    requires
        can_run(view, id),
        underway(view, id),
    ensures
        underway(view.deferred_launched(now), id),
    decreases view.deferred.len(),
{
    if !(view.active.len() >= view.limits.active_snapshots || view.deferred.len() == 0) {
        taking_the_first_keeps_underway(view, id, now);
        launching_keeps_underway(first_taken(view, now), id, now);
    }
}

/// Deferred snapshots being started, everyone is still attended to.
proof fn launching_attends(view: ServerView, now: Duration)
    requires
        requests_attended(view),
    ensures
        requests_attended(view.deferred_launched(now)),
{
    let next = view.deferred_launched(now);
    deferred_runs_start_in_order(view, now);
    launching_keeps_marks(view, now);
    assert forall|i: int| 0 <= i < next.waiters.len() implies can_run(next, (#[trigger] next.waiters[i]).project_id) && underway(
        next,
        next.waiters[i].project_id,
    ) by {
        launching_keeps_underway(view, view.waiters[i].project_id, now);
    }
}

/// Asking for a snapshot of a project that can run gets it under way, and
/// keeps under way what was.
proof fn asking_attends(view: ServerView, id: Seq<char>, now: Duration)
    requires
        marks_are_true(view),
    ensures
        marks_are_true(view.started(id, now)),
        can_run(view, id) ==> underway(view.started(id, now), id),
        forall|p: Seq<char>| can_run(view, p) && #[trigger] underway(view, p) ==> underway(view.started(id, now), p),
{
    if view.is_active(id) || view.deferred.contains(id) || view.dirty.running(id) {
    } else {
        let queued = ServerView { dirty: view.dirty.started(id), deferred: view.deferred.push(id), ..view };
        assert(queued.deferred[view.deferred.len() as int] == id);
        assert forall|p: Seq<char>| #[trigger] underway(view, p) implies underway(queued, p) by {
            if view.deferred.contains(p) {
                let k = choose|k: int| 0 <= k < view.deferred.len() && view.deferred[k] == p;
                assert(queued.deferred[k] == p);
            }
        }
        assert(marks_are_true(queued)) by {
            assert forall|p: Seq<char>| #[trigger] queued.dirty.running(p) implies underway(queued, p) by {
                if p != id {
                    assert(view.dirty.running(p));
                    assert(underway(view, p));
                }
            }
        }
        launching_keeps_marks(queued, now);
        if can_run(view, id) {
            launching_keeps_underway(queued, id, now);
        }
        assert forall|p: Seq<char>| can_run(view, p) && #[trigger] underway(view, p) implies underway(view.started(id, now), p) by {
            launching_keeps_underway(queued, p, now);
        }
    }
}

proof fn all_asking_attends(view: ServerView, ids: Seq<Seq<char>>, now: Duration)
    requires
        marks_are_true(view),
    ensures
        ({
            let after = view.all_started(ids, now);
            &&& marks_are_true(after)
            &&& after.projects == view.projects && after.generations == view.generations && after.waiters == view.waiters
            &&& forall|p: Seq<char>| can_run(view, p) && (underway(view, p) || ids.contains(p)) ==> #[trigger] underway(after, p)
        }),
    decreases ids.len(),
{
    if ids.len() > 0 {
        all_asking_attends(view, ids.drop_last(), now);
        let before = view.all_started(ids.drop_last(), now);
        let after = view.all_started(ids, now);
        asking_starts_runs(before, ids.last(), now);
        asking_attends(before, ids.last(), now);
        assert forall|p: Seq<char>| can_run(view, p) && (underway(view, p) || ids.contains(p)) implies #[trigger] underway(after, p) by {
            assert(can_run(before, p));
            if p != ids.last() {
                if ids.contains(p) {
                    let k = choose|k: int| 0 <= k < ids.len() && ids[k] == p;
                    assert(ids.drop_last()[k] == p);
                }
                assert(underway(before, p));
            }
        }
    }
}

// ---------------------------------------------------------------------------
// Waiting requests that are answered or lost

/// Every request that waits in `b` waits in `a`.
spec fn fewer_waiters(a: ServerView, b: ServerView) -> bool {
    forall|i: int| 0 <= i < b.waiters.len() ==> a.waiters.contains(#[trigger] b.waiters[i])
}

proof fn fewer_and_fewer(a: ServerView, b: ServerView, c: ServerView)
    requires
        fewer_waiters(a, b),
        fewer_waiters(b, c),
    ensures
        fewer_waiters(a, c),
{
    assert forall|i: int| 0 <= i < c.waiters.len() implies a.waiters.contains(#[trigger] c.waiters[i]) by {
        let k = choose|k: int| 0 <= k < b.waiters.len() && b.waiters[k] == c.waiters[i];
        assert(a.waiters.contains(b.waiters[k]));
    }
}

/// The two agree on what decides whether requests are attended to.
spec fn same_work(a: ServerView, b: ServerView) -> bool {
    &&& a.projects == b.projects
    &&& a.generations == b.generations
    &&& a.active == b.active
    &&& a.deferred == b.deferred
    &&& a.dirty == b.dirty
}

proof fn the_rest_is_attended(a: ServerView, b: ServerView)
    requires
        requests_attended(a),
        same_work(a, b),
        fewer_waiters(a, b),
    ensures
        requests_attended(b),
{
    assert forall|i: int| 0 <= i < b.waiters.len() implies can_run(b, (#[trigger] b.waiters[i]).project_id) && underway(
        b,
        b.waiters[i].project_id,
    ) by {
        let k = choose|k: int| 0 <= k < a.waiters.len() && a.waiters[k] == b.waiters[i];
        assert(can_run(a, a.waiters[k].project_id));
    }
    assert forall|id: Seq<char>| #[trigger] b.dirty.running(id) implies underway(b, id) by {
        assert(a.dirty.running(id));
        assert(underway(a, id));
    }
}

proof fn the_same_waiters(a: ServerView, b: ServerView)
    requires
        a.waiters == b.waiters,
    ensures
        fewer_waiters(a, b),
{
    assert forall|i: int| 0 <= i < b.waiters.len() implies a.waiters.contains(#[trigger] b.waiters[i]) by {
        assert(a.waiters[i] == b.waiters[i]);
    }
}

proof fn closing_only_removes_waiters(view: ServerView, connection: ConnectionId)
    ensures
        fewer_waiters(view, view.closed(connection)),
        fewer_waiters(view, view.dropped(connection)),
{
    waiters_off_are_others(view.waiters, connection);
    the_same_waiters(view, view);
}

proof fn answering_only_removes_waiters(view: ServerView, list: Seq<WaiterView>, projection: Option<ProjectionView>, message: Seq<char>, too_large: bool)
    ensures
        fewer_waiters(view, view.waiters_answered_from(list, projection, message, too_large)),
    decreases list.len(),
{
    if list.len() == 0 {
        the_same_waiters(view, view);
    } else {
        let before = view.waiters_answered_from(list.drop_last(), projection, message, too_large);
        let after = view.waiters_answered_from(list, projection, message, too_large);
        answering_only_removes_waiters(view, list.drop_last(), projection, message, too_large);
        let waiter = list.last();
        let unsubscribed = match waiter.kind {
            WaitKindView::Get => before,
            WaitKindView::Subscribe(subscription) => before.without_subscription(subscription),
        };
        closing_only_removes_waiters(unsubscribed, waiter.connection);
        if before.connected(waiter.connection) && projection is None && too_large {
            assert(after.waiters == unsubscribed.closed(waiter.connection).waiters);
            the_same_waiters(before, unsubscribed);
            the_same_waiters(unsubscribed.closed(waiter.connection), after);
            fewer_and_fewer(before, unsubscribed, unsubscribed.closed(waiter.connection));
            fewer_and_fewer(before, unsubscribed.closed(waiter.connection), after);
        } else {
            assert(after.waiters == before.waiters);
            the_same_waiters(before, after);
        }
        fewer_and_fewer(view, before, after);
    }
}

/// Those who waited for a project are answered, and nobody else is lost.
proof fn answered_projects_have_no_waiters(view: ServerView, id: Seq<char>, too_large: bool)
    ensures
        fewer_waiters(view, view.waiters_answered(id, too_large)),
        forall|i: int|
            0 <= i < view.waiters_answered(id, too_large).waiters.len() ==> (#[trigger] view.waiters_answered(id, too_large).waiters[i]).project_id != id,
        same_projects(view.waiters_answered(id, too_large), view),
{
    let taken = view.waiters_taken(id);
    let list = waiters_for(view.waiters, id);
    let after = view.waiters_answered(id, too_large);
    answering_only_removes_waiters(taken, list, view.cached_projection(id), view.failure_message(id), too_large);
    answering_touches_clients_only(taken, list, view.cached_projection(id), view.failure_message(id), too_large);
    waiters_are_parted(view.waiters, id);
    fewer_and_fewer(view, taken, after);
    assert forall|i: int| 0 <= i < after.waiters.len() implies (#[trigger] after.waiters[i]).project_id != id by {
        let k = choose|k: int| 0 <= k < taken.waiters.len() && taken.waiters[k] == after.waiters[i];
        assert(taken.waiters[k].project_id != id);
    }
}

// ---------------------------------------------------------------------------
// The end of a run

/// A state in which nothing of the project is under way, and nobody waits for
/// it: attended to, if it was before but for that project.
proof fn a_finished_project_is_done_with(before: ServerView, after: ServerView, at: int, id: Seq<char>, now: Duration)
    requires
        requests_attended(before),
        0 <= at < before.active.len(),
        before.active[at].record.id == id,
        after.active == before.active.remove(at),
        after.projects == before.projects,
        after.generations == before.generations,
        after.deferred == before.deferred,
        after.dirty == before.dirty.ended(id, now),
        fewer_waiters(before, after),
    ensures
        marks_are_true(after),
        forall|p: Seq<char>| p != id && #[trigger] underway(before, p) ==> underway(after, p),
        (forall|i: int| 0 <= i < after.waiters.len() ==> (#[trigger] after.waiters[i]).project_id != id) ==> requests_attended(after),
{
    assert forall|p: Seq<char>| p != id && #[trigger] underway(before, p) implies underway(after, p) by {
        others_stay_active(before.active, at, p);
    }
    assert forall|p: Seq<char>| #[trigger] after.dirty.running(p) implies underway(after, p) by {
        assert(p != id);
        assert(before.dirty.running(p));
        assert(underway(before, p));
    }
    if forall|i: int| 0 <= i < after.waiters.len() ==> (#[trigger] after.waiters[i]).project_id != id {
        assert forall|i: int| 0 <= i < after.waiters.len() implies can_run(after, (#[trigger] after.waiters[i]).project_id) && underway(
            after,
            after.waiters[i].project_id,
        ) by {
            let k = choose|k: int| 0 <= k < before.waiters.len() && before.waiters[k] == after.waiters[i];
            assert(can_run(before, before.waiters[k].project_id));
            assert(underway(before, before.waiters[k].project_id));
        }
    }
}

proof fn ends_of_runs_attend(view: ServerView, run: RunView, result: Result<SnapshotView, FailureView>, now: Duration)
    requires
        requests_attended(view),
    ensures
        requests_attended(view.finished(run, result, now)),
{
    let id = run.record.id;
    let at = active_place(view.active, id);
    active_place_is_right(view.active, id);
    if at < 0 || !same_run(view.active[at], run) {
    } else {
        let idle = ServerView { active: view.active.remove(at), ..view };
        if !idle.is_current(run) {
            let rested = idle.with_dirty(idle.dirty.ended(id, now));
            the_same_waiters(view, rested);
            a_finished_project_is_done_with(view, rested, at, id, now);
            if waiters_for(rested.waiters, id).len() > 0 && rested.enabled_record(id) is Some {
                let next = rested.started(id, now);
                asking_starts_runs(rested, id, now);
                asking_attends(rested, id, now);
                enabled_place_in_range(rested.projects, id);
                assert(can_run(rested, id)) by {
                    assert(view.projects[enabled_place(rested.projects, id)].id == id);
                }
                assert forall|i: int| 0 <= i < next.waiters.len() implies can_run(next, (#[trigger] next.waiters[i]).project_id)
                    && underway(next, next.waiters[i].project_id) by {
                    let p = view.waiters[i].project_id;
                    assert(can_run(view, p) && underway(view, p));
                    assert(can_run(rested, p));
                    if p != id {
                        assert(underway(rested, p));
                    }
                }
            } else {
                answered_projects_have_no_waiters(rested, id, false);
                let after = rested.waiters_answered(id, false);
                fewer_and_fewer(view, rested, after);
                a_finished_project_is_done_with(view, after, at, id, now);
            }
        } else {
            let outcome = idle.judged(run, result);
            let had_good = idle.cached_projection(id) is Some;
            let too_large = outcome matches Err(FailureView::OutputTooLarge(_));
            let cached = idle.cached(id, outcome);
            the_same_waiters(view, cached);
            answered_projects_have_no_waiters(cached, id, too_large);
            let answered = cached.waiters_answered(id, too_large);
            telling_touches_clients_only(answered, id, outcome, had_good);
            let told = answered.subscribers_told(id, outcome, had_good);
            let after = told.with_dirty(told.dirty.ended(id, now));
            fewer_and_fewer(view, cached, answered);
            the_same_waiters(answered, after);
            fewer_and_fewer(view, answered, after);
            a_finished_project_is_done_with(view, after, at, id, now);
        }
    }
}

// ---------------------------------------------------------------------------
// Requests

proof fn path_place_in_range(list: Seq<RecordView>, path: Seq<char>)
    ensures
        -1 <= path_place(list, path) < list.len(),
    decreases list.len(),
{
    if list.len() > 0 {
        path_place_in_range(list.drop_last(), path);
    }
}

/// A project that is selected can be asked.
proof fn selected_projects_can_run(view: ServerView, params: JsonView)
    requires
        registrations_numbered(view),
    ensures
        view.selected(params) matches Ok(project) ==> can_run(view, project),
{
    if let Ok(project) = view.selected(params) {
        let at = match crate::json::json_field(params, "projectId"@) {
            Some(JsonView::Text(id)) => record_place(view.projects, id),
            _ => match crate::json::json_field(params, "path"@) {
                Some(JsonView::Text(path)) => path_place(view.projects, path),
                _ => -1,
            },
        };
        match crate::json::json_field(params, "projectId"@) {
            Some(JsonView::Text(id)) => {
                found_records_are_listed(view.projects, id);
            },
            _ => {},
        }
        match crate::json::json_field(params, "path"@) {
            Some(JsonView::Text(path)) => {
                path_place_in_range(view.projects, path);
            },
            _ => {},
        }
        assert(view.projects[at].id == project && view.projects[at].enabled);
        enabled_place_in_range(view.projects, project);
    }
}

proof fn cold_requests_are_attended(view: ServerView, waiter: WaiterView, now: Duration)
    requires
        requests_attended(view),
        can_run(view, waiter.project_id),
    ensures
        requests_attended(view.waiting(waiter, now)),
{
    if view.can_wait(waiter.project_id) {
        let waiting = view.with_waiter(waiter);
        let next = waiting.started(waiter.project_id, now);
        assert(marks_are_true(waiting)) by {
            assert forall|id: Seq<char>| #[trigger] waiting.dirty.running(id) implies underway(waiting, id) by {
                assert(view.dirty.running(id));
                assert(underway(view, id));
            }
        }
        asking_starts_runs(waiting, waiter.project_id, now);
        asking_attends(waiting, waiter.project_id, now);
        assert forall|i: int| 0 <= i < next.waiters.len() implies can_run(next, (#[trigger] next.waiters[i]).project_id) && underway(
            next,
            next.waiters[i].project_id,
        ) by {
            if i < view.waiters.len() {
                assert(waiting.waiters[i] == view.waiters[i]);
                let p = view.waiters[i].project_id;
                assert(can_run(view, p) && underway(view, p));
                assert(can_run(waiting, p) && underway(waiting, p));
            } else {
                assert(waiting.waiters[i] == waiter);
            }
        }
    } else {
        closing_only_removes_waiters(view, waiter.connection);
        the_rest_is_attended(view, view.closed(waiter.connection));
    }
}

proof fn subscribing_is_attended(view: ServerView, connection: ConnectionId, id: Seq<char>, params: JsonView, now: Duration)
    requires
        requests_attended(view),
    ensures
        requests_attended(view.subscribed(connection, id, params, now)),
{
    selected_projects_can_run(view, params);
    match view.selected(params) {
        Err(refusal) => {
            let after = view.error_sent(connection, id, refusal.code, refusal.message);
            the_same_waiters(view, after);
            the_rest_is_attended(view, after);
        },
        Ok(project) => {
            let subscription = subscription_id(connection, view.next_subscription);
            let numbered = ServerView { next_subscription: (view.next_subscription + 1) as u64, ..view };
            the_same_waiters(view, numbered);
            the_rest_is_attended(view, numbered);
            if !numbered.can_subscribe(connection) {
                closing_only_removes_waiters(numbered, connection);
                the_rest_is_attended(numbered, numbered.closed(connection));
            } else {
                let entry = SubscriptionView { id: subscription, connection, project_id: project, returned: false };
                let registered = numbered.with_subscription(entry);
                the_same_waiters(numbered, registered);
                the_rest_is_attended(numbered, registered);
                match registered.cached_projection(project) {
                    Some(_) => {
                        let after = view.subscribed(connection, id, params, now);
                        the_same_waiters(registered, after);
                        the_rest_is_attended(registered, after);
                    },
                    None => {
                        cold_requests_are_attended(
                            registered,
                            WaiterView {
                                project_id: project,
                                connection,
                                request_id: id,
                                kind: WaitKindView::Subscribe(subscription),
                            },
                            now,
                        );
                    },
                }
            }
        },
    }
}

proof fn requests_are_attended(view: ServerView, connection: ConnectionId, parsed: Result<JsonView, Seq<char>>, now: Duration)
    requires
        requests_attended(view),
    ensures
        requests_attended(view.frame_handled(connection, parsed, now)),
{
    let after = view.frame_handled(connection, parsed, now);
    let request = match parsed {
        Ok(json) => read_envelope(json),
        Err(_) => None,
    };
    match request {
        Some(EnvelopeView::Request { version, id, method, params }) => {
            if version != crate::envelope::PROTOCOL_VERSION {
                let sent = view.error_sent(
                    connection,
                    id,
                    "unsupported_version"@,
                    "unsupported protocol major version"@,
                );
                the_same_waiters(view, sent);
                closing_only_removes_waiters(sent, connection);
                fewer_and_fewer(view, sent, sent.closed(connection));
                the_rest_is_attended(view, after);
            } else {
                match method {
                    MethodView::SnapshotGet => {
                        selected_projects_can_run(view, params);
                        match view.selected(params) {
                            Err(_) => {
                                the_same_waiters(view, after);
                                the_rest_is_attended(view, after);
                            },
                            Ok(project) => match view.cached_projection(project) {
                                Some(_) => {
                                    the_same_waiters(view, after);
                                    the_rest_is_attended(view, after);
                                },
                                None => {
                                    cold_requests_are_attended(
                                        view,
                                        WaiterView { project_id: project, connection, request_id: id, kind: WaitKindView::Get },
                                        now,
                                    );
                                },
                            },
                        }
                    },
                    MethodView::SnapshotSubscribe => {
                        subscribing_is_attended(view, connection, id, params, now);
                    },
                    _ => {
                        the_same_waiters(view, after);
                        the_rest_is_attended(view, after);
                    },
                }
            }
        },
        _ => {
            the_same_waiters(view, after);
            the_rest_is_attended(view, after);
        },
    }
}

// ---------------------------------------------------------------------------
// Due projects and changes

pub(crate) proof fn queueing_puts_underway(view: ServerView, ids: Seq<Seq<char>>)
    ensures
        ({
            let queued = view.queued_projects(ids);
            forall|p: Seq<char>| underway(view, p) || ids.contains(p) ==> #[trigger] underway(queued, p)
        }),
    decreases ids.len(),
{
    if ids.len() > 0 {
        queueing_puts_underway(view, ids.drop_last());
        let before = view.queued_projects(ids.drop_last());
        let queued = view.queued_projects(ids);
        assert forall|p: Seq<char>| underway(view, p) || ids.contains(p) implies #[trigger] underway(queued, p) by {
            if p == ids.last() {
                if queued.deferred.len() > before.deferred.len() {
                    assert(queued.deferred[before.deferred.len() as int] == p);
                }
            } else {
                if ids.contains(p) {
                    let k = choose|k: int| 0 <= k < ids.len() && ids[k] == p;
                    assert(ids.drop_last()[k] == p);
                }
                assert(underway(before, p));
                if before.deferred.contains(p) {
                    let k = choose|k: int| 0 <= k < before.deferred.len() && before.deferred[k] == p;
                    assert(queued.deferred[k] == p);
                }
            }
        }
    }
}

proof fn due_projects_are_attended(view: ServerView, now: Duration)
    requires
        requests_attended(view),
    ensures
        requests_attended(view.due_started(now)),
{
    let order = view.dirty.due_order(now);
    let marked = view.with_dirty(view.dirty.started_due(now));
    let queued = marked.queued_projects(order);
    due_projects_can_be_listed(view.dirty, now);
    queueing_keeps(marked, order);
    queueing_puts_underway(marked, order);
    assert(marked.dirty.projects.dom() =~= view.dirty.projects.dom());
    assert(marks_are_true(queued)) by {
        assert forall|p: Seq<char>| #[trigger] queued.dirty.running(p) implies underway(queued, p) by {
            if view.dirty.is_due(p, now) {
                assert(order.contains(p));
            } else {
                assert(view.dirty.running(p));
                assert(underway(view, p));
                assert(underway(marked, p));
            }
        }
    }
    assert forall|i: int| 0 <= i < queued.waiters.len() implies can_run(queued, (#[trigger] queued.waiters[i]).project_id) && underway(
        queued,
        queued.waiters[i].project_id,
    ) by {
        let p = view.waiters[i].project_id;
        assert(can_run(view, p) && underway(view, p));
        assert(underway(marked, p));
    }
    launching_attends(queued, now);
}

/// Marking a project as changed makes it no more and no less running.
proof fn marking_attends(view: ServerView, id: Seq<char>, now: Duration)
    requires
        requests_attended(view),
    ensures
        requests_attended(view.with_dirty(view.dirty.marked(id, now))),
{
    let after = view.with_dirty(view.dirty.marked(id, now));
    assert forall|p: Seq<char>| #[trigger] after.dirty.running(p) implies underway(after, p) by {
        assert(view.dirty.running(p));
        assert(underway(view, p));
    }
    assert forall|i: int| 0 <= i < after.waiters.len() implies can_run(after, (#[trigger] after.waiters[i]).project_id) && underway(
        after,
        after.waiters[i].project_id,
    ) by {
        assert(can_run(view, view.waiters[i].project_id) && underway(view, view.waiters[i].project_id));
    }
}

proof fn changes_are_attended(view: ServerView, paths: Seq<Seq<char>>, now: Duration)
    requires
        requests_attended(view),
    ensures
        requests_attended(view.paths_changed(paths, now)),
    decreases paths.len(),
{
    if paths.len() > 0 {
        changes_are_attended(view, paths.drop_last(), now);
        let before = view.paths_changed(paths.drop_last(), now);
        let at = crate::server::registry_watch::watching_place(before.projects, paths.last());
        marking_attends(before, before.projects[at].id, now);
        let noted = ServerView {
            registry_due: before.path_changed(paths.last(), now).registry_due,
            ..before
        };
        the_same_waiters(before, noted);
        the_rest_is_attended(before, noted);
    }
}

proof fn missed_changes_are_attended(view: ServerView, projects: Seq<RecordView>, now: Duration)
    requires
        requests_attended(view),
    ensures
        requests_attended(view.all_marked(projects, now)),
    decreases projects.len(),
{
    if projects.len() > 0 {
        missed_changes_are_attended(view, projects.drop_last(), now);
        marking_attends(view.all_marked(projects.drop_last(), now), projects.last().id, now);
    }
}

// ---------------------------------------------------------------------------
// A new registry

proof fn waiters_for_has(list: Seq<WaiterView>, i: int, project: Seq<char>)
    requires
        0 <= i < list.len(),
        list[i].project_id == project,
    ensures
        waiters_for(list, project).len() > 0,
    decreases list.len(),
{
    if i < list.len() - 1 {
        waiters_for_has(list.drop_last(), i, project);
    }
}

proof fn displacing_only_moves_waiters(view: ServerView, list: Seq<WaiterView>, restart_gets: bool)
    ensures
        ({
            let after = view.waiters_displaced(list, restart_gets);
            forall|i: int| 0 <= i < after.waiters.len() ==> view.waiters.contains(#[trigger] after.waiters[i]) || list.contains(after.waiters[i])
        }),
    decreases list.len(),
{
    let after = view.waiters_displaced(list, restart_gets);
    if list.len() == 0 {
        the_same_waiters(view, view);
    } else {
        displacing_only_moves_waiters(view, list.drop_last(), restart_gets);
        let before = view.waiters_displaced(list.drop_last(), restart_gets);
        assert forall|i: int| 0 <= i < after.waiters.len() implies view.waiters.contains(#[trigger] after.waiters[i]) || list.contains(
            after.waiters[i],
        ) by {
            if i < before.waiters.len() {
                assert(after.waiters[i] == before.waiters[i]);
                if list.drop_last().contains(before.waiters[i]) {
                    let k = choose|k: int| 0 <= k < list.drop_last().len() && list.drop_last()[k] == before.waiters[i];
                    assert(list[k] == before.waiters[i]);
                }
            } else {
                assert(list[list.len() - 1] == after.waiters[i]);
            }
        }
    }
}

proof fn ending_only_removes_waiters(view: ServerView, project: Seq<char>, reason: Seq<char>, restart_gets: bool)
    ensures
        fewer_waiters(view, view.project_ended(project, reason, restart_gets)),
{
    let taken = ServerView { subscriptions: subscriptions_beside(view.subscriptions, project), ..view };
    let list = subscriptions_for(view.subscriptions, project);
    ending_only_sends(taken, list, reason);
    let told = taken.subscriptions_ended(list, reason);
    let own = waiters_for(told.waiters, project);
    let left = told.waiters_taken(project);
    waiters_are_parted(view.waiters, project);
    displacing_only_moves_waiters(left, own, restart_gets);
    let after = view.project_ended(project, reason, restart_gets);
    assert forall|i: int| 0 <= i < after.waiters.len() implies view.waiters.contains(#[trigger] after.waiters[i]) by {
        if left.waiters.contains(after.waiters[i]) {
            let k = choose|k: int| 0 <= k < left.waiters.len() && left.waiters[k] == after.waiters[i];
            assert(view.waiters.contains(left.waiters[k]));
        } else {
            let k = choose|k: int| 0 <= k < own.len() && own[k] == after.waiters[i];
            assert(view.waiters.contains(own[k]));
        }
    }
}

proof fn other_texts_stay(list: Seq<Seq<char>>, text: Seq<char>, other: Seq<char>)
    requires
        other != text,
    ensures
        texts_except(list, text).contains(other) <==> list.contains(other),
    decreases list.len(),
{
    if list.len() > 0 {
        other_texts_stay(list.drop_last(), text, other);
        let left = texts_except(list, text);
        let before = texts_except(list.drop_last(), text);
        if list.contains(other) {
            let k = choose|k: int| 0 <= k < list.len() && list[k] == other;
            if k == list.len() - 1 {
                assert(left[left.len() - 1] == other);
            } else {
                assert(list.drop_last()[k] == other);
                let m = choose|m: int| 0 <= m < before.len() && before[m] == other;
                assert(left[m] == other);
            }
        }
        if left.contains(other) {
            let k = choose|k: int| 0 <= k < left.len() && left[k] == other;
            if k < before.len() {
                assert(before[k] == other);
                let m = choose|m: int| 0 <= m < list.drop_last().len() && list.drop_last()[m] == other;
                assert(list[m] == other);
            } else {
                assert(list[list.len() - 1] == other);
            }
        }
    }
}

/// The record under an id is the only one there, so it is enabled if any is.
proof fn the_record_is_the_enabled_one(projects: Seq<RecordView>, id: Seq<char>)
    requires
        ids_distinct(projects),
    ensures
        enabled_place(projects, id) >= 0 <==> (record_with(projects, id) matches Some(record) && record.enabled),
        record_with(projects, id) matches Some(record) ==> record.id == id,
{
    found_records_are_listed(projects, id);
    enabled_place_in_range(projects, id);
    let at = record_place(projects, id);
    let e = enabled_place(projects, id);
    if e >= 0 {
        listed_records_are_found(projects, e);
        if at < e {
            assert(projects[at].id != projects[e].id);
        } else if e < at {
            assert(projects[e].id != projects[at].id);
        }
    }
}

/// What holds while a new registry is taken over, once the registrations in
/// `done` are settled and those in `restart` are to be started.
spec fn settling(view: ServerView, restart: Seq<Seq<char>>, done: Seq<Seq<char>>, old: Seq<RecordView>, new: Seq<RecordView>) -> bool {
    &&& marks_are_true(view)
    &&& forall|i: int| 0 <= i < view.waiters.len() ==> attended_while_settling(view, restart, done, old, new, (#[trigger] view.waiters[i]).project_id)
    &&& forall|id: Seq<char>|
        done.contains(id) && (#[trigger] record_with(new, id)) is Some ==> view.generations.dom().contains(id)
    &&& forall|i: int| 0 <= i < old.len() && !done.contains((#[trigger] old[i]).id) ==> view.generations.dom().contains(old[i].id)
}

spec fn attended_while_settling(view: ServerView, restart: Seq<Seq<char>>, done: Seq<Seq<char>>, old: Seq<RecordView>, new: Seq<RecordView>, id: Seq<char>) -> bool {
    &&& view.generations.dom().contains(id)
    &&& if done.contains(id) {
        enabled_place(new, id) >= 0 && (underway(view, id) || restart.contains(id))
    } else {
        enabled_place(old, id) >= 0 && underway(view, id)
    }
}

proof fn one_more(list: Seq<Seq<char>>, id: Seq<char>, other: Seq<char>)
    ensures
        list.push(id).contains(other) <==> list.contains(other) || other == id,
{
    if list.contains(other) {
        let k = choose|k: int| 0 <= k < list.len() && list[k] == other;
        assert(list.push(id)[k] == other);
    }
    assert(list.push(id)[list.len() as int] == id);
}

/// What a change of one registration does to the work and to those who wait.
proof fn registration_effects(view: ServerView, id: Seq<char>, previous: Option<RecordView>, next: Option<RecordView>, watch_retried: bool)
    ensures
        ({
            let (changed, again) = view.registration_changed(id, previous, next, watch_retried);
            let skipped = same_registration(previous, next) && !watch_retried;
            &&& fewer_waiters(view, changed)
            &&& changed.projects == view.projects
            &&& changed.active == view.active
            &&& changed.generations == if skipped {
                view.generations
            } else {
                view.renumbered(id, previous, next).generations
            }
            &&& changed.deferred == if !skipped && ends(previous, next) {
                texts_except(view.deferred, id)
            } else {
                view.deferred
            }
            &&& changed.dirty == if !skipped && ends(previous, next) {
                view.dirty.forgotten(id)
            } else {
                view.dirty
            }
            &&& !skipped && ends(previous, next) ==> forall|i: int|
                0 <= i < changed.waiters.len() && (#[trigger] changed.waiters[i]).project_id == id ==> moves(previous, next)
            &&& again <==> !skipped && ends(previous, next) && moves(previous, next) && view.deferred.contains(id) && waiters_for(
                changed.waiters,
                id,
            ).len() > 0
        }),
{
    the_same_waiters(view, view);
    if !(same_registration(previous, next) && !watch_retried) {
        let moved = view.renumbered(id, previous, next).cache_moved(id, previous, next);
        let emptied = ServerView { deferred: texts_except(moved.deferred, id), ..moved };
        let restart_gets = moves(previous, next);
        ending_touches_clients_only(emptied, id, "project_removed"@, restart_gets);
        ending_only_removes_waiters(emptied, id, "project_removed"@, restart_gets);
        ended_projects_are_not_followed(emptied, id, "project_removed"@, restart_gets);
        let closed = if ends(previous, next) {
            moved.project_closed(id, restart_gets)
        } else {
            moved
        };
        broadcasting_only_sends(
            closed,
            closed.connections,
            "project.updated"@,
            updated_payload(id, event_path(previous, next), event_enabled(next)),
        );
        let changed = view.registration_changed(id, previous, next, watch_retried).0;
        the_same_waiters(view, emptied);
        if ends(previous, next) {
            let ended = emptied.project_ended(id, "project_removed"@, restart_gets);
            the_same_waiters(ended, changed);
            fewer_and_fewer(view, emptied, ended);
            fewer_and_fewer(view, ended, changed);
        } else {
            the_same_waiters(view, changed);
        }
    }
}

proof fn one_registration_settles(view: ServerView, restart: Seq<Seq<char>>, done: Seq<Seq<char>>, old: Seq<RecordView>, new: Seq<RecordView>, id: Seq<char>, watch_retried: bool)
    requires
        settling(view, restart, done, old, new),
        !done.contains(id),
        ids_distinct(old),
        ids_distinct(new),
    ensures
        ({
            let (changed, again) = view.registration_changed(id, record_with(old, id), record_with(new, id), watch_retried);
            settling(
                changed,
                if again {
                    restart.push(id)
                } else {
                    restart
                },
                done.push(id),
                old,
                new,
            )
        }),
{
    let previous = record_with(old, id);
    let next = record_with(new, id);
    let (changed, again) = view.registration_changed(id, previous, next, watch_retried);
    let restarts = if again {
        restart.push(id)
    } else {
        restart
    };
    let settled = done.push(id);
    registration_effects(view, id, previous, next, watch_retried);
    the_record_is_the_enabled_one(old, id);
    the_record_is_the_enabled_one(new, id);
    assert forall|p: Seq<char>| p != id && #[trigger] underway(view, p) implies underway(changed, p) by {
        other_texts_stay(view.deferred, id, p);
    }
    assert(marks_are_true(changed)) by {
        assert forall|p: Seq<char>| #[trigger] changed.dirty.running(p) implies underway(changed, p) by {
            assert(view.dirty.running(p));
            assert(underway(view, p));
        }
    }
    assert forall|i: int| 0 <= i < changed.waiters.len() implies attended_while_settling(
        changed,
        restarts,
        settled,
        old,
        new,
        (#[trigger] changed.waiters[i]).project_id,
    ) by {
        let p = changed.waiters[i].project_id;
        let k = choose|k: int| 0 <= k < view.waiters.len() && view.waiters[k] == changed.waiters[i];
        assert(attended_while_settling(view, restart, done, old, new, view.waiters[k].project_id));
        one_more(done, id, p);
        one_more(restart, id, p);
        if p == id {
            assert(underway(view, id));
            waiters_for_has(changed.waiters, i, id);
        } else if underway(view, p) {
            assert(underway(changed, p));
        }
    }
    assert forall|other: Seq<char>| settled.contains(other) && (#[trigger] record_with(new, other)) is Some implies changed.generations.dom().contains(other) by {
        one_more(done, id, other);
        if other == id && previous is Some {
            found_records_are_listed(old, id);
            assert(!done.contains(old[record_place(old, id)].id));
        }
    }
    assert forall|i: int| 0 <= i < old.len() && !settled.contains((#[trigger] old[i]).id) implies changed.generations.dom().contains(old[i].id) by {
        one_more(done, id, old[i].id);
    }
}

proof fn registrations_settle(view: ServerView, ids: Seq<Seq<char>>, old: Seq<RecordView>, new: Seq<RecordView>, watch_retried: Seq<Seq<char>>)
    requires
        settling(view, Seq::empty(), Seq::empty(), old, new),
        ids.no_duplicates(),
        ids_distinct(old),
        ids_distinct(new),
    ensures
        ({
            let (changed, restart) = view.registrations_changed(ids, old, new, watch_retried);
            settling(changed, restart, ids, old, new)
        }),
    decreases ids.len(),
{
    if ids.len() == 0 {
        assert(ids =~= Seq::empty());
    } else {
        let shorter = ids.drop_last();
        let id = ids.last();
        registrations_settle(view, shorter, old, new, watch_retried);
        let (before, restart) = view.registrations_changed(shorter, old, new, watch_retried);
        if shorter.contains(id) {
            let k = choose|k: int| 0 <= k < shorter.len() && shorter[k] == id;
            assert(ids[k] == ids[ids.len() - 1]);
        }
        one_registration_settles(before, restart, shorter, old, new, id, watch_retried.contains(id));
        assert(shorter.push(id) =~= ids);
    }
}

proof fn added_ids_are_new(new: Seq<RecordView>, old: Seq<RecordView>, k: int)
    requires
        0 <= k < added_ids(new, old).len(),
    ensures
        record_with(old, added_ids(new, old)[k]) is None,
        exists|i: int| 0 <= i < new.len() && (#[trigger] new[i]).id == added_ids(new, old)[k],
    decreases new.len(),
{
    let shorter = added_ids(new.drop_last(), old);
    if k < shorter.len() {
        added_ids_are_new(new.drop_last(), old, k);
        let i = choose|i: int| 0 <= i < new.drop_last().len() && (#[trigger] new.drop_last()[i]).id == shorter[k];
        assert(new[i].id == added_ids(new, old)[k]);
    } else {
        assert(new[new.len() - 1].id == added_ids(new, old)[k]);
    }
}

proof fn added_ids_are_distinct(new: Seq<RecordView>, old: Seq<RecordView>)
    requires
        ids_distinct(new),
    ensures
        added_ids(new, old).no_duplicates(),
    decreases new.len(),
{
    if new.len() > 0 {
        let shorter = new.drop_last();
        assert(ids_distinct(shorter)) by {
            assert forall|i: int, j: int| 0 <= i < j < shorter.len() implies (#[trigger] shorter[i]).id != (#[trigger] shorter[j]).id by {
                assert(new[i].id != new[j].id);
            }
        }
        added_ids_are_distinct(shorter, old);
        let before = added_ids(shorter, old);
        let all = added_ids(new, old);
        assert forall|i: int, j: int| 0 <= i < j < all.len() implies all[i] != all[j] by {
            if j == before.len() {
                added_ids_are_new(shorter, old, i);
                let k = choose|k: int| 0 <= k < shorter.len() && (#[trigger] shorter[k]).id == before[i];
                assert(new[k].id != new[new.len() - 1].id);
            }
        }
    }
}

pub(crate) proof fn changed_ids_are_distinct(new: Seq<RecordView>, old: Seq<RecordView>)
    requires
        ids_distinct(new),
        ids_distinct(old),
    ensures
        (ids_of(old) + added_ids(new, old)).no_duplicates(),
{
    let own = ids_of(old);
    let added = added_ids(new, old);
    let all = own + added;
    added_ids_are_distinct(new, old);
    assert forall|i: int, j: int| 0 <= i < j < all.len() implies all[i] != all[j] by {
        if j < own.len() {
            assert(old[i].id != old[j].id);
        } else if i < own.len() {
            added_ids_are_new(new, old, j - own.len());
            listed_records_are_found(old, i);
        } else {
            assert(added[i - own.len()] != added[j - own.len()]);
        }
    }
}

proof fn registries_attend(view: ServerView, new: Seq<RecordView>, failed: Seq<Seq<char>>, now: Duration)
    requires
        requests_attended(view),
        ids_distinct(new),
    ensures
        requests_attended(view.registry_replaced(new, failed, now)),
{
    let old = view.projects;
    let pending = pending_without(view.pending_watches, unwatched(old, new));
    let rewatched = ServerView { pending_watches: pending_after(new, old, pending, failed), ..view };
    let ids = ids_of(old) + added_ids(new, old);
    let again = retried(new, old, pending, failed);
    assert(settling(rewatched, Seq::empty(), Seq::empty(), old, new)) by {
        assert forall|id: Seq<char>| #[trigger] rewatched.dirty.running(id) implies underway(rewatched, id) by {
            assert(view.dirty.running(id));
            assert(underway(view, id));
        }
        assert forall|i: int| 0 <= i < rewatched.waiters.len() implies attended_while_settling(
            rewatched,
            Seq::empty(),
            Seq::empty(),
            old,
            new,
            (#[trigger] rewatched.waiters[i]).project_id,
        ) by {
            assert(can_run(view, view.waiters[i].project_id));
            assert(underway(view, view.waiters[i].project_id));
        }
    }
    changed_ids_are_distinct(new, old);
    registrations_settle(rewatched, ids, old, new, again);
    let (changed, restart) = rewatched.registrations_changed(ids, old, new, again);
    let placed = ServerView { projects: new, ..changed };
    assert(marks_are_true(placed)) by {
        assert forall|id: Seq<char>| #[trigger] placed.dirty.running(id) implies underway(placed, id) by {
            assert(changed.dirty.running(id));
            assert(underway(changed, id));
        }
    }
    all_asking_attends(placed, restart, now);
    let started = placed.all_started(restart, now);
    let next = view.registry_replaced(new, failed, now);
    assert forall|i: int| 0 <= i < next.waiters.len() implies can_run(next, (#[trigger] next.waiters[i]).project_id) && underway(
        next,
        next.waiters[i].project_id,
    ) by {
        let p = changed.waiters[i].project_id;
        assert(attended_while_settling(changed, restart, ids, old, new, p));
        if !ids.contains(p) {
            enabled_place_in_range(old, p);
            let e = enabled_place(old, p);
            assert(ids[e] == p);
        }
        assert(can_run(placed, p));
        assert(underway(placed, p) || restart.contains(p));
        assert(underway(started, p));
    }
    assert forall|id: Seq<char>| #[trigger] next.dirty.running(id) implies underway(next, id) by {
        assert(started.dirty.running(id));
        assert(underway(started, id));
    }
    assert forall|i: int| 0 <= i < next.projects.len() implies next.generations.dom().contains((#[trigger] next.projects[i]).id) by {
        let id = new[i].id;
        listed_records_are_found(new, i);
        found_records_are_listed(old, id);
        if record_with(old, id) is Some {
            assert(ids[record_place(old, id)] == id);
        } else {
            added_ids_are_all(new, old, i);
            let added = added_ids(new, old);
            let k = choose|k: int| 0 <= k < added.len() && added[k] == id;
            assert(ids[old.len() + k] == id);
        }
        assert(ids.contains(id));
    }
}

// ---------------------------------------------------------------------------
// The laws

/// A daemon begins with nobody waiting in vain.
pub proof fn a_new_daemon_attends(limits: Limits, version: Seq<char>, registry: Seq<char>, projects: Seq<RecordView>, window: Duration)
    requires
        ids_distinct(projects),
    ensures
        requests_attended(new_server(limits, version, registry, projects, window)),
{
    first_registrations_are_numbered(projects);
}

proof fn first_registrations_are_numbered(projects: Seq<RecordView>)
    ensures
        forall|i: int| 0 <= i < projects.len() ==> first_generations(projects).dom().contains((#[trigger] projects[i]).id),
    decreases projects.len(),
{
    if projects.len() > 0 {
        first_registrations_are_numbered(projects.drop_last());
        assert forall|i: int| 0 <= i < projects.len() implies first_generations(projects).dom().contains((#[trigger] projects[i]).id) by {
            if i < projects.len() - 1 {
                assert(projects.drop_last()[i] == projects[i]);
            }
        }
    }
}

proof fn drops_only_remove_waiters(view: ServerView, connections: Seq<ConnectionId>)
    ensures
        fewer_waiters(view, view.all_dropped(connections)),
    decreases connections.len(),
{
    if connections.len() == 0 {
        the_same_waiters(view, view);
    } else {
        drops_only_remove_waiters(view, connections.drop_last());
        let before = view.all_dropped(connections.drop_last());
        closing_only_removes_waiters(before, connections.last());
        fewer_and_fewer(view, before, view.all_dropped(connections));
    }
}

proof fn closing_all_only_removes_waiters(view: ServerView)
    ensures
        fewer_waiters(view, view.all_closed()),
    decreases view.connections.len(),
{
    if view.connections.len() == 0 {
        the_same_waiters(view, view);
    } else {
        let closed = view.closed(view.connections.last().id);
        closing_only_removes_waiters(view, view.connections.last().id);
        closing_all_only_removes_waiters(closed);
        fewer_and_fewer(view, closed, view.all_closed());
    }
}

/// Nobody ever waits in vain: until the daemon stops, whatever happens, every
/// request that waits is for a project that is registered and enabled and
/// whose command runs or is about to, so that its end will answer the
/// request.
pub proof fn nobody_waits_in_vain(view: ServerView, event: EventView, now: Duration)
    requires
        requests_attended(view),
        view.allows(event),
        !(event is Drained),
        event matches EventView::Registry(new, _) ==> ids_distinct(new),
    ensures
        requests_attended(view.after(event, now)),
{
    let after = view.after(event, now);
    match event {
        EventView::Admitted => {
            the_same_waiters(view, after);
            the_rest_is_attended(view, after);
        },
        EventView::WriterGone(_) => {
            the_same_waiters(view, after);
            the_rest_is_attended(view, after);
        },
        EventView::Frame(connection, parsed) => {
            requests_are_attended(view, connection, parsed, now);
        },
        EventView::Oversized(connection, request) => {
            let answered = match request {
                Some(id) => view.error_sent(connection, id, "frame_too_large"@, "frame exceeds maximum size"@),
                None => view,
            };
            the_same_waiters(view, answered);
            closing_only_removes_waiters(answered, connection);
            fewer_and_fewer(view, answered, after);
            the_rest_is_attended(view, after);
        },
        EventView::SnapshotDone(run, result) => {
            ends_of_runs_attend(view, run, result, now);
            launching_attends(view.finished(run, result, now), now);
        },
        EventView::Due => {
            due_projects_are_attended(view, now);
        },
        EventView::Changed(paths) => {
            changes_are_attended(view, paths, now);
        },
        EventView::Missed => {
            missed_changes_are_attended(view, view.projects, now);
        },
        EventView::Registry(new, failed) => {
            registries_attend(view, new, failed, now);
        },
        EventView::Watched(installed) => {
            let settled = ServerView {
                pending_watches: pending_without(view.pending_watches, installed),
                ..view
            }.retry_scheduled(now);
            announcing_only_sends(settled, installed);
            the_same_waiters(view, after);
            the_rest_is_attended(view, after);
        },
        EventView::Gone(connections) => {
            dropping_touches_clients_only(view, connections);
            drops_only_remove_waiters(view, connections);
            the_rest_is_attended(view, after);
        },
        EventView::Stopping => {
            stopping_touches_clients_only(view);
            stopping_ends_everything(view);
            the_rest_is_attended(view, after);
        },
        EventView::Drained(_) => {},
        EventView::Closing => {
            closing_touches_clients_only(view);
            closing_all_only_removes_waiters(view);
            the_rest_is_attended(view, after);
        },
    }
}

} // verus!
