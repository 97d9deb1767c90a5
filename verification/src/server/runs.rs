//! What holds of the running snapshot commands, whatever happens.

use crate::envelope::{read_envelope, EnvelopeView, MethodView};
use crate::json::JsonView;
use crate::project::{RecordView, SnapshotView};
use crate::protocol::ConnectionId;
use crate::server::events::{answering_touches_clients_only, announcing_only_sends, closing_touches_clients_only,
    dropping_touches_clients_only, ending_touches_clients_only, stopping_touches_clients_only,
    telling_touches_clients_only, EventView};
use crate::server::model::{active_place, record_with, same_run, subscription_id, texts_except, waiters_for, EffectView, RunView,
    ServerView, SubscriptionView, WaitKindView, WaiterView};
use crate::server::registry_watch::{after, pending_after, pending_without, retried, unwatched, updated_payload};
use crate::server::replacement::{added_ids, broadcasting_only_sends, ends, event_enabled, event_path, ids_of, moves};
use crate::server::snapshots::{enabled_place, enabled_place_in_range};
use crate::snapshot::FailureView;
use crate::time::Duration;
use vstd::prelude::*;

verus! {

/// The commands that run are within their bound, and no project has two.
pub open spec fn runs_in_bounds(view: ServerView) -> bool {
    &&& view.active.len() <= view.limits.active_snapshots
    &&& forall|i: int, j: int| 0 <= i < j < view.active.len() ==> (#[trigger] view.active[i]).record.id != (#[trigger] view.active[j]).record.id
}

/// A run is for a project that is registered and enabled, under the number of
/// its present registration.
pub open spec fn is_registered(view: ServerView, run: RunView) -> bool {
    &&& view.generations.dom().contains(run.record.id)
    &&& view.generations[run.record.id] == run.generation
    &&& exists|i: int| 0 <= i < view.projects.len() && (#[trigger] view.projects[i]) == run.record && view.projects[i].enabled
}

pub proof fn active_place_is_right(active: Seq<RunView>, id: Seq<char>)
    ensures
        -1 <= active_place(active, id) < active.len(),
        active_place(active, id) >= 0 ==> active[active_place(active, id)].record.id == id,
        active_place(active, id) < 0 ==> forall|i: int| 0 <= i < active.len() ==> (#[trigger] active[i]).record.id != id,
    decreases active.len(),
{
    if active.len() > 0 {
        active_place_is_right(active.drop_last(), id);
        if active_place(active, id) < 0 {
            assert forall|i: int| 0 <= i < active.len() implies (#[trigger] active[i]).record.id != id by {
                if i < active.len() - 1 {
                    assert(active.drop_last()[i] == active[i]);
                }
            }
        }
    }
}

/// `b` comes from `a` by starting runs: each of them is for a project that is
/// registered and enabled, each is asked for once, and nothing else changes
/// but the debounce states and the queue.
pub open spec fn only_starts_runs(a: ServerView, b: ServerView) -> bool {
    &&& b == (ServerView { active: b.active, deferred: b.deferred, dirty: b.dirty, effects: b.effects, ..a })
    &&& b.active.len() >= a.active.len()
    &&& b.active.take(a.active.len() as int) == a.active
    &&& b.effects.len() == a.effects.len() + (b.active.len() - a.active.len())
    &&& b.effects.take(a.effects.len() as int) == a.effects
    &&& forall|i: int| a.active.len() <= i < b.active.len() ==> is_registered(a, #[trigger] b.active[i])
    &&& forall|i: int|
        a.active.len() <= i < b.active.len() ==> b.effects[a.effects.len() + (i - a.active.len())] == (EffectView::Launch {
            run: #[trigger] b.active[i],
        })
}

/// Deferred snapshots are started only for registered, enabled projects, in
/// the order in which they were asked for, and until the bound is reached or
/// none is left.
pub proof fn deferred_runs_start_in_order(view: ServerView, now: Duration)
    ensures
        ({
            let next = view.deferred_launched(now);
            &&& only_starts_runs(view, next)
            &&& next.deferred.len() == 0 || next.active.len() >= view.limits.active_snapshots
            &&& next.deferred.len() <= view.deferred.len()
            &&& next.deferred == view.deferred.skip(view.deferred.len() - next.deferred.len())
            &&& runs_in_bounds(view) ==> runs_in_bounds(next)
        }),
    decreases view.deferred.len(),
{
    let next = view.deferred_launched(now);
    if view.active.len() >= view.limits.active_snapshots || view.deferred.len() == 0 {
        assert(next.active.take(view.active.len() as int) =~= view.active);
        assert(next.effects.take(view.effects.len() as int) =~= view.effects);
        assert(view.deferred.skip(0) =~= view.deferred);
    } else {
        let id = view.deferred[0];
        let rest = ServerView { deferred: view.deferred.drop_first(), ..view };
        let step = if rest.is_active(id) {
            rest
        } else {
            match rest.enabled_record(id) {
                None => rest.with_dirty(rest.dirty.ended(id, now)),
                Some(record) => rest.launched(record, now),
            }
        };
        enabled_place_in_range(rest.projects, id);
        active_place_is_right(rest.active, id);
        deferred_runs_start_in_order(step, now);
        assert(next == step.deferred_launched(now));
        assert(step.deferred =~= view.deferred.skip(1));
        assert(next.deferred =~= view.deferred.skip(view.deferred.len() - next.deferred.len())) by {
            assert(step.deferred.skip(step.deferred.len() - next.deferred.len()) =~= view.deferred.skip(
                view.deferred.len() - next.deferred.len(),
            ));
        }
        if step.active.len() > view.active.len() {
            let run = step.active.last();
            assert(step.active =~= view.active.push(run));
            assert(step.effects =~= view.effects.push(EffectView::Launch { run }));
            assert(is_registered(view, run)) by {
                assert(view.projects[enabled_place(rest.projects, id)] == run.record);
            }
            assert(next.active.take(view.active.len() as int) =~= view.active) by {
                assert(next.active.take(step.active.len() as int).take(view.active.len() as int) =~= next.active.take(
                    view.active.len() as int,
                ));
            }
            assert(next.effects.take(view.effects.len() as int) =~= view.effects) by {
                assert(next.effects.take(step.effects.len() as int).take(view.effects.len() as int) =~= next.effects.take(
                    view.effects.len() as int,
                ));
            }
            assert(next.active[view.active.len() as int] == run) by {
                assert(next.active.take(step.active.len() as int)[view.active.len() as int] == run);
            }
            assert(next.effects[view.effects.len() as int] == (EffectView::Launch { run })) by {
                assert(next.effects.take(step.effects.len() as int)[view.effects.len() as int] == (EffectView::Launch {
                    run,
                }));
            }
            assert forall|i: int| view.active.len() <= i < next.active.len() implies is_registered(
                view,
                #[trigger] next.active[i],
            ) && next.effects[view.effects.len() + (i - view.active.len())] == (EffectView::Launch {
                run: next.active[i],
            }) by {
                if i > view.active.len() {
                    assert(is_registered(step, next.active[i]));
                    let k = choose|k: int|
                        0 <= k < step.projects.len() && (#[trigger] step.projects[k]) == next.active[i].record
                            && step.projects[k].enabled;
                    assert(view.projects[k] == next.active[i].record);
                }
            }
        } else {
            assert(step.active == view.active);
            assert(step.effects == view.effects);
            assert forall|i: int| view.active.len() <= i < next.active.len() implies is_registered(
                view,
                #[trigger] next.active[i],
            ) by {
                assert(is_registered(step, next.active[i]));
                let k = choose|k: int|
                    0 <= k < step.projects.len() && (#[trigger] step.projects[k]) == next.active[i].record
                        && step.projects[k].enabled;
                assert(view.projects[k] == next.active[i].record);
            }
        }
    }
}

/// Asking for a snapshot starts runs as deferred ones are started.
pub proof fn asking_starts_runs(view: ServerView, id: Seq<char>, now: Duration)
    ensures
        only_starts_runs(view, view.started(id, now)),
        runs_in_bounds(view) ==> runs_in_bounds(view.started(id, now)),
{
    let next = view.started(id, now);
    if view.is_active(id) || view.deferred.contains(id) || view.dirty.running(id) {
        assert(next.active.take(view.active.len() as int) =~= view.active);
        assert(next.effects.take(view.effects.len() as int) =~= view.effects);
    } else {
        let queued = ServerView { dirty: view.dirty.started(id), deferred: view.deferred.push(id), ..view };
        deferred_runs_start_in_order(queued, now);
        assert forall|i: int| view.active.len() <= i < next.active.len() implies is_registered(
            view,
            #[trigger] next.active[i],
        ) by {
            assert(is_registered(queued, next.active[i]));
            let k = choose|k: int|
                0 <= k < queued.projects.len() && (#[trigger] queued.projects[k]) == next.active[i].record
                    && queued.projects[k].enabled;
            assert(view.projects[k] == next.active[i].record);
        }
    }
}

pub(crate) proof fn queueing_keeps(view: ServerView, ids: Seq<Seq<char>>)
    ensures
        ({
            let queued = view.queued_projects(ids);
            queued == (ServerView { deferred: queued.deferred, ..view })
        }),
    decreases ids.len(),
{
    if ids.len() > 0 {
        queueing_keeps(view, ids.drop_last());
    }
}

/// Projects that are due start runs as deferred ones are started.
pub proof fn due_projects_start_runs(view: ServerView, now: Duration)
    ensures
        only_starts_runs(view, view.due_started(now)),
        runs_in_bounds(view) ==> runs_in_bounds(view.due_started(now)),
{
    let next = view.due_started(now);
    let marked = view.with_dirty(view.dirty.started_due(now));
    queueing_keeps(marked, view.dirty.due_order(now));
    let queued = marked.queued_projects(view.dirty.due_order(now));
    deferred_runs_start_in_order(queued, now);
    assert forall|i: int| view.active.len() <= i < next.active.len() implies is_registered(view, #[trigger] next.active[i]) by {
        assert(is_registered(queued, next.active[i]));
        let k = choose|k: int|
            0 <= k < queued.projects.len() && (#[trigger] queued.projects[k]) == next.active[i].record
                && queued.projects[k].enabled;
        assert(view.projects[k] == next.active[i].record);
    }
}

proof fn removal_keeps_bounds(view: ServerView, at: int)
    requires
        runs_in_bounds(view),
        0 <= at < view.active.len(),
    ensures
        runs_in_bounds(ServerView { active: view.active.remove(at), ..view }),
{
    let active = view.active.remove(at);
    assert forall|i: int, j: int| 0 <= i < j < active.len() implies (#[trigger] active[i]).record.id != (#[trigger] active[j]).record.id by {
        let a = if i < at { i } else { i + 1 };
        let b = if j < at { j } else { j + 1 };
        assert(active[i] == view.active[a]);
        assert(active[j] == view.active[b]);
    }
}

/// The end of a run keeps the bounds.
pub proof fn ends_of_runs_keep_bounds(view: ServerView, run: RunView, result: Result<SnapshotView, FailureView>, now: Duration)
    requires
        runs_in_bounds(view),
    ensures
        runs_in_bounds(view.finished(run, result, now)),
        view.finished(run, result, now).limits == view.limits,
{
    let id = run.record.id;
    let at = active_place(view.active, id);
    active_place_is_right(view.active, id);
    if at < 0 || !same_run(view.active[at], run) {
    } else {
        let idle = ServerView { active: view.active.remove(at), ..view };
        removal_keeps_bounds(view, at);
        if !idle.is_current(run) {
            let rested = idle.with_dirty(idle.dirty.ended(id, now));
            asking_starts_runs(rested, id, now);
            answering_touches_clients_only(
                rested.waiters_taken(id),
                waiters_for(rested.waiters, id),
                rested.cached_projection(id),
                rested.failure_message(id),
                false,
            );
        } else {
            let outcome = idle.judged(run, result);
            let had_good = idle.cached_projection(id) is Some;
            let too_large = outcome matches Err(FailureView::OutputTooLarge(_));
            let cached = idle.cached(id, outcome);
            answering_touches_clients_only(
                cached.waiters_taken(id),
                waiters_for(cached.waiters, id),
                cached.cached_projection(id),
                cached.failure_message(id),
                too_large,
            );
            telling_touches_clients_only(cached.waiters_answered(id, too_large), id, outcome, had_good);
        }
    }
}

/// A change of one registration leaves the runs alone.
pub proof fn registrations_leave_runs(view: ServerView, id: Seq<char>, previous: Option<RecordView>, next: Option<RecordView>, watch_retried: bool)
    ensures
        ({
            let changed = view.registration_changed(id, previous, next, watch_retried).0;
            changed.active == view.active && changed.limits == view.limits
        }),
{
    let moved = view.renumbered(id, previous, next).cache_moved(id, previous, next);
    let emptied = ServerView { deferred: texts_except(moved.deferred, id), ..moved };
    ending_touches_clients_only(emptied, id, "project_removed"@, moves(previous, next));
    let closed = if ends(previous, next) {
        moved.project_closed(id, moves(previous, next))
    } else {
        moved
    };
    broadcasting_only_sends(
        closed,
        closed.connections,
        "project.updated"@,
        updated_payload(id, event_path(previous, next), event_enabled(next)),
    );
}

proof fn all_registrations_leave_runs(view: ServerView, ids: Seq<Seq<char>>, old: Seq<RecordView>, new: Seq<RecordView>, watch_retried: Seq<Seq<char>>)
    ensures
        ({
            let changed = view.registrations_changed(ids, old, new, watch_retried).0;
            changed.active == view.active && changed.limits == view.limits
        }),
    decreases ids.len(),
{
    if ids.len() > 0 {
        all_registrations_leave_runs(view, ids.drop_last(), old, new, watch_retried);
        let before = view.registrations_changed(ids.drop_last(), old, new, watch_retried).0;
        let id = ids.last();
        registrations_leave_runs(before, id, record_with(old, id), record_with(new, id), watch_retried.contains(id));
    }
}

proof fn all_asking_keeps_bounds(view: ServerView, ids: Seq<Seq<char>>, now: Duration)
    requires
        runs_in_bounds(view),
    ensures
        runs_in_bounds(view.all_started(ids, now)),
        view.all_started(ids, now).limits == view.limits,
    decreases ids.len(),
{
    if ids.len() > 0 {
        all_asking_keeps_bounds(view, ids.drop_last(), now);
        asking_starts_runs(view.all_started(ids.drop_last(), now), ids.last(), now);
    }
}

pub proof fn path_changes_keep(view: ServerView, paths: Seq<Seq<char>>, now: Duration)
    ensures
        ({
            let changed = view.paths_changed(paths, now);
            changed == (ServerView { dirty: changed.dirty, registry_due: changed.registry_due, ..view })
        }),
    decreases paths.len(),
{
    if paths.len() > 0 {
        path_changes_keep(view, paths.drop_last(), now);
    }
}

pub proof fn marking_keeps(view: ServerView, projects: Seq<RecordView>, now: Duration)
    ensures
        view.all_marked(projects, now) == view.with_dirty(view.all_marked(projects, now).dirty),
    decreases projects.len(),
{
    if projects.len() > 0 {
        marking_keeps(view, projects.drop_last(), now);
    }
}

/// Whatever happens, no more commands run than are allowed, and no project
/// has two of them.
pub proof fn events_keep_runs_in_bounds(view: ServerView, event: EventView, now: Duration)
    requires
        runs_in_bounds(view),
        view.allows(event),
    ensures
        runs_in_bounds(view.after(event, now)),
        view.after(event, now).limits == view.limits,
{
    match event {
        EventView::Admitted => {},
        EventView::WriterGone(_) => {},
        EventView::Frame(connection, parsed) => {
            requests_keep_runs(view, connection, parsed, now);
        },
        EventView::Oversized(_, _) => {},
        EventView::SnapshotDone(run, result) => {
            ends_of_runs_keep_bounds(view, run, result, now);
            deferred_runs_start_in_order(view.finished(run, result, now), now);
        },
        EventView::Due => {
            due_projects_start_runs(view, now);
        },
        EventView::Changed(paths) => {
            path_changes_keep(view, paths, now);
        },
        EventView::Missed => {
            marking_keeps(view, view.projects, now);
        },
        EventView::Registry(new, failed) => {
            let old = view.projects;
            let pending = pending_without(view.pending_watches, unwatched(old, new));
            let rewatched = ServerView { pending_watches: pending_after(new, old, pending, failed), ..view };
            let ids = ids_of(old) + added_ids(new, old);
            let again = retried(new, old, pending, failed);
            all_registrations_leave_runs(rewatched, ids, old, new, again);
            let (changed, restart) = rewatched.registrations_changed(ids, old, new, again);
            all_asking_keeps_bounds(ServerView { projects: new, ..changed }, restart, now);
        },
        EventView::Watched(installed) => {
            let settled = ServerView {
                pending_watches: pending_without(view.pending_watches, installed),
                ..view
            }.retry_scheduled(now);
            announcing_only_sends(settled, installed);
        },
        EventView::Gone(connections) => {
            dropping_touches_clients_only(view, connections);
        },
        EventView::Stopping => {
            stopping_touches_clients_only(view);
        },
        EventView::Drained(run) => {
            let at = active_place(view.active, run.record.id);
            active_place_is_right(view.active, run.record.id);
            if at >= 0 {
                removal_keeps_bounds(view, at);
            }
        },
        EventView::Closing => {
            closing_touches_clients_only(view);
        },
    }
}

proof fn cold_requests_keep_runs(view: ServerView, waiter: WaiterView, now: Duration)
    requires
        runs_in_bounds(view),
    ensures
        runs_in_bounds(view.waiting(waiter, now)),
        view.waiting(waiter, now).limits == view.limits,
{
    if view.can_wait(waiter.project_id) {
        asking_starts_runs(view.with_waiter(waiter), waiter.project_id, now);
    }
}

proof fn subscribing_keeps_runs(view: ServerView, connection: ConnectionId, id: Seq<char>, params: JsonView, now: Duration)
    requires
        runs_in_bounds(view),
    ensures
        runs_in_bounds(view.subscribed(connection, id, params, now)),
        view.subscribed(connection, id, params, now).limits == view.limits,
{
    match view.selected(params) {
        Err(_) => {},
        Ok(project) => {
            let subscription = subscription_id(connection, view.next_subscription);
            let numbered = ServerView { next_subscription: (view.next_subscription + 1) as u64, ..view };
            if numbered.can_subscribe(connection) {
                let registered = numbered.with_subscription(
                    SubscriptionView { id: subscription, connection, project_id: project, returned: false },
                );
                cold_requests_keep_runs(
                    registered,
                    WaiterView {
                        project_id: project,
                        connection,
                        request_id: id,
                        kind: WaitKindView::Subscribe(subscription),
                    },
                    now,
                );
            }
        },
    }
}

proof fn requests_keep_runs(view: ServerView, connection: ConnectionId, parsed: Result<JsonView, Seq<char>>, now: Duration)
    requires
        runs_in_bounds(view),
    ensures
        runs_in_bounds(view.frame_handled(connection, parsed, now)),
        view.frame_handled(connection, parsed, now).limits == view.limits,
{
    let request = match parsed {
        Ok(json) => read_envelope(json),
        Err(_) => None,
    };
    match request {
        Some(EnvelopeView::Request { version, id, method, params }) => match method {
            MethodView::SnapshotGet => match view.selected(params) {
                Err(_) => {},
                Ok(project) => {
                    cold_requests_keep_runs(
                        view,
                        WaiterView { project_id: project, connection, request_id: id, kind: WaitKindView::Get },
                        now,
                    );
                },
            },
            MethodView::SnapshotSubscribe => {
                subscribing_keeps_runs(view, connection, id, params, now);
            },
            _ => {},
        },
        _ => {},
    }
}

} // verus!
