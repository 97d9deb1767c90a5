//! What holds of the retained snapshots, whatever happens.

use crate::envelope::{read_envelope, EnvelopeView, MethodView};
use crate::json::JsonView;
use crate::project::{same_record, RecordView, SnapshotView};
use crate::protocol::ConnectionId;
use crate::server::events::{answering_touches_clients_only, announcing_only_sends, closing_touches_clients_only,
    dropping_touches_clients_only, ending_touches_clients_only, stopping_touches_clients_only, telling_touches_clients_only,
    EventView};
use crate::server::model::{active_place, record_place, record_with, same_run, subscription_id, texts_except, waiters_for, RunView,
    ServerView, SubscriptionView, WaitKindView, WaiterView};
use crate::server::registry_watch::{pending_after, pending_without, retried, unwatched, updated_payload};
use crate::server::replacement::{added_ids, broadcasting_only_sends, ends, event_enabled, event_path, ids_of, moves,
    same_registration, stays};
use crate::server::runs::{asking_starts_runs, deferred_runs_start_in_order, due_projects_start_runs, marking_keeps,
    path_changes_keep};
use crate::snapshot::FailureView;
use crate::state::{fresh_cache, stale_marks, CacheView};
use crate::time::Duration;
use vstd::prelude::*;

verus! {

/// The bytes that all caches hold together.
pub open spec fn retained_total(caches: Map<Seq<char>, CacheView>) -> nat
    decreases caches.dom().len(),
{
    if caches.dom().finite() && caches.dom().len() > 0 {
        let id = caches.dom().choose();
        caches[id].retained_bytes as nat + retained_total(caches.remove(id))
    } else {
        0
    }
}

/// The total is that of any one cache and of the others.
pub proof fn total_of_one_and_the_others(caches: Map<Seq<char>, CacheView>, id: Seq<char>)
    requires
        caches.dom().finite(),
        caches.dom().contains(id),
    ensures
        retained_total(caches) == caches[id].retained_bytes + retained_total(caches.remove(id)),
    decreases caches.dom().len(),
{
    let first = caches.dom().choose();
    if first != id {
        total_of_one_and_the_others(caches.remove(first), id);
        total_of_one_and_the_others(caches.remove(id), first);
        assert(caches.remove(first).remove(id) =~= caches.remove(id).remove(first));
    }
}

proof fn total_after_insert(caches: Map<Seq<char>, CacheView>, id: Seq<char>, cache: CacheView)
    requires
        caches.dom().finite(),
    ensures
        retained_total(caches.insert(id, cache)) == cache.retained_bytes + retained_total(caches.remove(id)),
{
    total_of_one_and_the_others(caches.insert(id, cache), id);
    assert(caches.insert(id, cache).remove(id) =~= caches.remove(id));
}

/// The retained bytes are counted exactly and within their bound, and every
/// project has a cache.
pub open spec fn caches_accounted(view: ServerView) -> bool {
    &&& view.caches.dom().finite()
    &&& view.retained_cache_bytes == retained_total(view.caches)
    &&& view.retained_cache_bytes <= view.limits.cache_bytes
    &&& forall|i: int| 0 <= i < view.projects.len() ==> view.caches.dom().contains((#[trigger] view.projects[i]).id)
}

/// The part that holds even while the registry changes.
spec fn bytes_accounted(view: ServerView) -> bool {
    &&& view.caches.dom().finite()
    &&& view.retained_cache_bytes == retained_total(view.caches)
    &&& view.retained_cache_bytes <= view.limits.cache_bytes
}

proof fn outcomes_are_accounted(view: ServerView, run: RunView, result: Result<SnapshotView, FailureView>)
    requires
        caches_accounted(view),
        view.is_current(run),
    ensures
        caches_accounted(view.cached(run.record.id, view.judged(run, result))),
{
    let id = run.record.id;
    let i = choose|i: int| 0 <= i < view.projects.len() && (#[trigger] view.projects[i]).enabled && same_record(view.projects[i], run.record);
    assert(view.caches.dom().contains(view.projects[i].id));
    total_of_one_and_the_others(view.caches, id);
    let after = view.cached(id, view.judged(run, result));
    total_after_insert(view.caches, id, after.caches[id]);
    assert(after.caches =~= view.caches.insert(id, after.caches[id]));
}

/// The end of a run keeps the caches accounted.
pub proof fn ends_of_runs_keep_caches_accounted(view: ServerView, run: RunView, result: Result<SnapshotView, FailureView>, now: Duration)
    requires
        caches_accounted(view),
    ensures
        caches_accounted(view.finished(run, result, now)),
{
    let id = run.record.id;
    let at = active_place(view.active, id);
    if at < 0 || !same_run(view.active[at], run) {
    } else {
        let idle = ServerView { active: view.active.remove(at), ..view };
        if !idle.is_current(run) {
            let rested = idle.with_dirty(idle.dirty.ended(id, now));
            asking_starts_runs(rested, id, now);
            answering_touches_clients_only(
                rested.waiters_taken(id),
                waiters_for(rested.waiters, id),
                rested.cached_projection(id),
                rested.failure_message(id),
                false,
            );
        } else {
            let outcome = idle.judged(run, result);
            let had_good = idle.cached_projection(id) is Some;
            let too_large = outcome matches Err(FailureView::OutputTooLarge(_));
            let cached = idle.cached(id, outcome);
            outcomes_are_accounted(idle, run, result);
            answering_touches_clients_only(
                cached.waiters_taken(id),
                waiters_for(cached.waiters, id),
                cached.cached_projection(id),
                cached.failure_message(id),
                too_large,
            );
            telling_touches_clients_only(cached.waiters_answered(id, too_large), id, outcome, had_good);
        }
    }
}

proof fn moving_keeps_bytes(view: ServerView, id: Seq<char>, previous: Option<RecordView>, next: Option<RecordView>)
    requires
        bytes_accounted(view),
    ensures
        bytes_accounted(view.cache_moved(id, previous, next)),
{
    let moved = view.cache_moved(id, previous, next);
    if view.caches.dom().contains(id) {
        total_of_one_and_the_others(view.caches, id);
    } else {
        assert(view.caches.remove(id) =~= view.caches);
    }
    match next {
        Some(record) => {
            if stays(previous, next) {
                if view.caches.dom().contains(id) {
                    total_after_insert(view.caches, id, CacheView { record, ..view.caches[id] });
                }
            } else {
                total_after_insert(view.caches, id, fresh_cache(record));
            }
        },
        None => {},
    }
}

/// What one change of registration does to the caches.
proof fn registration_moves_cache(view: ServerView, id: Seq<char>, previous: Option<RecordView>, next: Option<RecordView>, watch_retried: bool)
    ensures
        ({
            let changed = view.registration_changed(id, previous, next, watch_retried).0;
            let moved = if same_registration(previous, next) && !watch_retried {
                view
            } else {
                view.cache_moved(id, previous, next)
            };
            &&& changed.caches == moved.caches
            &&& changed.retained_cache_bytes == moved.retained_cache_bytes
            &&& changed.limits == view.limits
        }),
{
    let moved = view.renumbered(id, previous, next).cache_moved(id, previous, next);
    let emptied = ServerView { deferred: texts_except(moved.deferred, id), ..moved };
    ending_touches_clients_only(emptied, id, "project_removed"@, moves(previous, next));
    let closed = if ends(previous, next) {
        moved.project_closed(id, moves(previous, next))
    } else {
        moved
    };
    broadcasting_only_sends(
        closed,
        closed.connections,
        "project.updated"@,
        updated_payload(id, event_path(previous, next), event_enabled(next)),
    );
}

/// Every project of the new registry that is old or has been dealt with has a
/// cache.
spec fn covered(caches: Map<Seq<char>, CacheView>, done: Seq<Seq<char>>, old: Seq<RecordView>, new: Seq<RecordView>) -> bool {
    forall|id: Seq<char>|
        #![trigger record_with(new, id)]
        record_with(new, id) is Some && (record_with(old, id) is Some || done.contains(id)) ==> caches.dom().contains(id)
}

proof fn registrations_keep_bytes(view: ServerView, ids: Seq<Seq<char>>, old: Seq<RecordView>, new: Seq<RecordView>, watch_retried: Seq<Seq<char>>)
    requires
        bytes_accounted(view),
        covered(view.caches, Seq::empty(), old, new),
    ensures
        ({
            let changed = view.registrations_changed(ids, old, new, watch_retried).0;
            &&& bytes_accounted(changed)
            &&& changed.limits == view.limits
            &&& covered(changed.caches, ids, old, new)
        }),
    decreases ids.len(),
{
    if ids.len() > 0 {
        let done = ids.drop_last();
        registrations_keep_bytes(view, done, old, new, watch_retried);
        let before = view.registrations_changed(done, old, new, watch_retried).0;
        let id = ids.last();
        let previous = record_with(old, id);
        let next = record_with(new, id);
        registration_moves_cache(before, id, previous, next, watch_retried.contains(id));
        moving_keeps_bytes(before, id, previous, next);
        let changed = view.registrations_changed(ids, old, new, watch_retried).0;
        assert forall|x: Seq<char>|
            #![trigger record_with(new, x)]
            record_with(new, x) is Some && (record_with(old, x) is Some || ids.contains(x)) implies changed.caches.dom().contains(x) by {
            if x != id && ids.contains(x) {
                let k = choose|k: int| 0 <= k < ids.len() && ids[k] == x;
                assert(done[k] == x);
                assert(done.contains(x));
            }
        }
    } else {
        assert(ids =~= Seq::<Seq<char>>::empty());
    }
}

/// A record that is in a list is found there.
pub proof fn listed_records_are_found(list: Seq<RecordView>, i: int)
    requires
        0 <= i < list.len(),
    ensures
        record_with(list, list[i].id) is Some,
    decreases list.len(),
{
    if i < list.len() - 1 {
        listed_records_are_found(list.drop_last(), i);
    }
}

/// A record that is found is in the list, under that id.
pub proof fn found_records_are_listed(list: Seq<RecordView>, id: Seq<char>)
    ensures
        -1 <= record_place(list, id) < list.len(),
        record_place(list, id) >= 0 ==> list[record_place(list, id)].id == id,
    decreases list.len(),
{
    if list.len() > 0 {
        found_records_are_listed(list.drop_last(), id);
    }
}

pub(crate) proof fn added_ids_are_all(new: Seq<RecordView>, old: Seq<RecordView>, i: int)
    requires
        0 <= i < new.len(),
        record_with(old, new[i].id) is None,
    ensures
        added_ids(new, old).contains(new[i].id),
    decreases new.len(),
{
    if i == new.len() - 1 {
        let list = added_ids(new, old);
        assert(list[list.len() - 1] == new[i].id);
    } else {
        added_ids_are_all(new.drop_last(), old, i);
        let shorter = added_ids(new.drop_last(), old);
        let k = choose|k: int| 0 <= k < shorter.len() && shorter[k] == new[i].id;
        assert(added_ids(new, old)[k] == new[i].id);
    }
}

proof fn all_asking_keeps_caches(view: ServerView, ids: Seq<Seq<char>>, now: Duration)
    ensures
        ({
            let after = view.all_started(ids, now);
            &&& after.caches == view.caches
            &&& after.retained_cache_bytes == view.retained_cache_bytes
            &&& after.limits == view.limits
            &&& after.projects == view.projects
        }),
    decreases ids.len(),
{
    if ids.len() > 0 {
        all_asking_keeps_caches(view, ids.drop_last(), now);
        asking_starts_runs(view.all_started(ids.drop_last(), now), ids.last(), now);
    }
}

/// A new registry keeps the caches accounted.
pub proof fn registries_keep_caches_accounted(view: ServerView, new: Seq<RecordView>, failed: Seq<Seq<char>>, now: Duration)
    requires
        caches_accounted(view),
    ensures
        caches_accounted(view.registry_replaced(new, failed, now)),
        view.registry_replaced(new, failed, now).projects == new,
{
    let old = view.projects;
    let pending = pending_without(view.pending_watches, unwatched(old, new));
    let rewatched = ServerView { pending_watches: pending_after(new, old, pending, failed), ..view };
    let ids = ids_of(old) + added_ids(new, old);
    let again = retried(new, old, pending, failed);
    assert(covered(rewatched.caches, Seq::empty(), old, new)) by {
        assert forall|id: Seq<char>|
            #![trigger record_with(new, id)]
            record_with(new, id) is Some && (record_with(old, id) is Some || Seq::<Seq<char>>::empty().contains(id)) implies rewatched.caches.dom().contains(id) by {
            found_records_are_listed(old, id);
            assert(rewatched.projects[record_place(old, id)].id == id);
        }
    }
    registrations_keep_bytes(rewatched, ids, old, new, again);
    let (changed, restart) = rewatched.registrations_changed(ids, old, new, again);
    let placed = ServerView { projects: new, ..changed };
    all_asking_keeps_caches(placed, restart, now);
    assert forall|i: int| 0 <= i < new.len() implies changed.caches.dom().contains((#[trigger] new[i]).id) by {
        listed_records_are_found(new, i);
        if record_with(old, new[i].id) is None {
            added_ids_are_all(new, old, i);
            let list = added_ids(new, old);
            let k = choose|k: int| 0 <= k < list.len() && list[k] == new[i].id;
            assert(ids[ids_of(old).len() + k] == new[i].id);
            assert(ids.contains(new[i].id));
        }
    }
}

/// The caches, their size and what they are for are the same.
spec fn same_caches(a: ServerView, b: ServerView) -> bool {
    &&& a.caches == b.caches
    &&& a.retained_cache_bytes == b.retained_cache_bytes
    &&& a.limits == b.limits
    &&& a.projects == b.projects
}

proof fn cold_requests_keep_caches(view: ServerView, waiter: WaiterView, now: Duration)
    ensures
        same_caches(view.waiting(waiter, now), view),
{
    if view.can_wait(waiter.project_id) {
        asking_starts_runs(view.with_waiter(waiter), waiter.project_id, now);
    }
}

proof fn subscribing_keeps_caches(view: ServerView, connection: ConnectionId, id: Seq<char>, params: JsonView, now: Duration)
    ensures
        same_caches(view.subscribed(connection, id, params, now), view),
{
    match view.selected(params) {
        Err(_) => {},
        Ok(project) => {
            let subscription = subscription_id(connection, view.next_subscription);
            let numbered = ServerView { next_subscription: (view.next_subscription + 1) as u64, ..view };
            if numbered.can_subscribe(connection) {
                let registered = numbered.with_subscription(
                    SubscriptionView { id: subscription, connection, project_id: project, returned: false },
                );
                cold_requests_keep_caches(
                    registered,
                    WaiterView {
                        project_id: project,
                        connection,
                        request_id: id,
                        kind: WaitKindView::Subscribe(subscription),
                    },
                    now,
                );
            }
        },
    }
}

proof fn requests_keep_caches(view: ServerView, connection: ConnectionId, parsed: Result<JsonView, Seq<char>>, now: Duration)
    ensures
        same_caches(view.frame_handled(connection, parsed, now), view),
{
    let request = match parsed {
        Ok(json) => read_envelope(json),
        Err(_) => None,
    };
    match request {
        Some(EnvelopeView::Request { version, id, method, params }) => match method {
            MethodView::SnapshotGet => match view.selected(params) {
                Err(_) => {},
                Ok(project) => {
                    cold_requests_keep_caches(
                        view,
                        WaiterView { project_id: project, connection, request_id: id, kind: WaitKindView::Get },
                        now,
                    );
                },
            },
            MethodView::SnapshotSubscribe => {
                subscribing_keeps_caches(view, connection, id, params, now);
            },
            _ => {},
        },
        _ => {},
    }
}

/// Whatever happens, the bytes of all retained snapshots are counted exactly
/// and stay within their bound.
pub proof fn events_keep_caches_accounted(view: ServerView, event: EventView, now: Duration)
    requires
        caches_accounted(view),
        view.allows(event),
    ensures
        caches_accounted(view.after(event, now)),
{
    match event {
        EventView::Admitted => {},
        EventView::WriterGone(_) => {},
        EventView::Frame(connection, parsed) => {
            requests_keep_caches(view, connection, parsed, now);
        },
        EventView::Oversized(_, _) => {},
        EventView::SnapshotDone(run, result) => {
            ends_of_runs_keep_caches_accounted(view, run, result, now);
            deferred_runs_start_in_order(view.finished(run, result, now), now);
        },
        EventView::Due => {
            due_projects_start_runs(view, now);
        },
        EventView::Changed(paths) => {
            path_changes_keep(view, paths, now);
        },
        EventView::Missed => {
            marking_keeps(view, view.projects, now);
        },
        EventView::Registry(new, failed) => {
            registries_keep_caches_accounted(view, new, failed, now);
        },
        EventView::Watched(installed) => {
            let settled = ServerView {
                pending_watches: pending_without(view.pending_watches, installed),
                ..view
            }.retry_scheduled(now);
            announcing_only_sends(settled, installed);
        },
        EventView::Gone(connections) => {
            dropping_touches_clients_only(view, connections);
        },
        EventView::Stopping => {
            stopping_touches_clients_only(view);
        },
        EventView::Drained(_) => {},
        EventView::Closing => {
            closing_touches_clients_only(view);
        },
    }
}

// ---------------------------------------------------------------------------
// What a run can do to a cache

/// A run that is not for the present registration of its project changes no
/// cache; neither does one that nobody expects.
pub proof fn outdated_runs_change_no_cache(view: ServerView, run: RunView, result: Result<SnapshotView, FailureView>, now: Duration)
    requires
        !view.is_current(run) || active_place(view.active, run.record.id) < 0 || !same_run(
            view.active[active_place(view.active, run.record.id)],
            run,
        ),
    ensures
        view.finished(run, result, now).caches == view.caches,
        view.finished(run, result, now).retained_cache_bytes == view.retained_cache_bytes,
{
    let id = run.record.id;
    let at = active_place(view.active, id);
    if at >= 0 && same_run(view.active[at], run) {
        let idle = ServerView { active: view.active.remove(at), ..view };
        let rested = idle.with_dirty(idle.dirty.ended(id, now));
        asking_starts_runs(rested, id, now);
        answering_touches_clients_only(
            rested.waiters_taken(id),
            waiters_for(rested.waiters, id),
            rested.cached_projection(id),
            rested.failure_message(id),
            false,
        );
    }
}

/// The end of a run changes at most the cache of its own project, and however
/// it ends, a snapshot that was there stays until a good one replaces it: a
/// failure only marks it as stale.
pub proof fn the_last_good_snapshot_stays(view: ServerView, run: RunView, result: Result<SnapshotView, FailureView>, now: Duration, id: Seq<char>)
    requires
        view.caches.dom().contains(id),
    ensures
        ({
            let next = view.finished(run, result, now);
            &&& next.caches.dom().contains(id)
            &&& id != run.record.id ==> next.caches[id] == view.caches[id]
            &&& view.caches[id].projection matches Some(projection) ==> (next.caches[id].projection matches Some(kept) && {
                ||| kept == projection
                ||| kept.snapshot == projection.snapshot && kept.degraded == stale_marks()
                ||| result == Ok::<SnapshotView, FailureView>(kept.snapshot) && kept.degraded.len() == 0
            })
        }),
{
    let own = run.record.id;
    let at = active_place(view.active, own);
    if at < 0 || !same_run(view.active[at], run) {
    } else {
        let idle = ServerView { active: view.active.remove(at), ..view };
        if !idle.is_current(run) {
            assert(!view.is_current(run));
            outdated_runs_change_no_cache(view, run, result, now);
        } else {
            let outcome = idle.judged(run, result);
            let had_good = idle.cached_projection(own) is Some;
            let too_large = outcome matches Err(FailureView::OutputTooLarge(_));
            let cached = idle.cached(own, outcome);
            answering_touches_clients_only(
                cached.waiters_taken(own),
                waiters_for(cached.waiters, own),
                cached.cached_projection(own),
                cached.failure_message(own),
                too_large,
            );
            telling_touches_clients_only(cached.waiters_answered(own, too_large), own, outcome, had_good);
        }
    }
}

} // verus!
