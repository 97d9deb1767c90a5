//! A change of the registry asks for no snapshot that nobody asked for before.

use crate::project::RecordView;
use crate::server::events::ending_touches_clients_only;
use crate::server::model::{record_with, texts_except, RunView, ServerView};
use crate::server::registry_watch::{pending_after, pending_without, retried, unwatched, updated_payload};
use crate::server::replacement::{added_ids, broadcasting_only_sends, ends, event_enabled, event_path, ids_of, moves};
use crate::server::snapshots::enabled_place_in_range;
use crate::time::Duration;
use vstd::prelude::*;

verus! {

/// A snapshot command of the project is running.
pub open spec fn has_run(runs: Seq<RunView>, id: Seq<char>) -> bool {
    exists|i: int| 0 <= i < runs.len() && (#[trigger] runs[i]).record.id == id
}

/// A snapshot of the project is being taken or was asked for.
pub open spec fn is_wanted(view: ServerView, id: Seq<char>) -> bool {
    view.deferred.contains(id) || has_run(view.active, id)
}

/// Nothing is wanted in `b` but what is wanted in `a` and what is listed.
spec fn wants_no_more(a: ServerView, b: ServerView, more: Seq<Seq<char>>) -> bool {
    forall|id: Seq<char>| #[trigger] is_wanted(b, id) ==> is_wanted(a, id) || more.contains(id)
}

proof fn launching_wants_no_more(view: ServerView, now: Duration)
    ensures
        wants_no_more(view, view.deferred_launched(now), Seq::empty()),
    decreases view.deferred.len(),
{
    if view.active.len() >= view.limits.active_snapshots || view.deferred.len() == 0 {
    } else {
        let first = view.deferred[0];
        let rest = ServerView { deferred: view.deferred.drop_first(), ..view };
        let step = if rest.is_active(first) {
            rest
        } else {
            match rest.enabled_record(first) {
                None => rest.with_dirty(rest.dirty.ended(first, now)),
                Some(record) => rest.launched(record, now),
            }
        };
        enabled_place_in_range(rest.projects, first);
        launching_wants_no_more(step, now);
        assert forall|id: Seq<char>| #[trigger] is_wanted(view.deferred_launched(now), id) implies is_wanted(view, id) by {
            assert(is_wanted(step, id));
            if step.deferred.contains(id) {
                let k = choose|k: int| 0 <= k < step.deferred.len() && step.deferred[k] == id;
                assert(view.deferred[k + 1] == id);
            } else {
                let i = choose|i: int| 0 <= i < step.active.len() && (#[trigger] step.active[i]).record.id == id;
                if i < view.active.len() {
                    assert(view.active[i] == step.active[i]);
                } else {
                    assert(view.deferred[0] == id);
                }
            }
        }
    }
}

proof fn asking_wants_one_more(view: ServerView, asked: Seq<char>, now: Duration)
    ensures
        wants_no_more(view, view.started(asked, now), seq![asked]),
{
    let queued = ServerView { dirty: view.dirty.started(asked), deferred: view.deferred.push(asked), ..view };
    launching_wants_no_more(queued, now);
    assert(seq![asked][0] == asked);
    assert forall|id: Seq<char>| #[trigger] is_wanted(view.started(asked, now), id) implies is_wanted(view, id) || seq![asked].contains(id) by {
        if !is_wanted(view, id) {
            assert(is_wanted(queued, id));
            if queued.deferred.contains(id) {
                let k = choose|k: int| 0 <= k < queued.deferred.len() && queued.deferred[k] == id;
                if k < view.deferred.len() {
                    assert(view.deferred[k] == id);
                }
            }
        }
    }
}

proof fn restarts_want_what_is_listed(view: ServerView, ids: Seq<Seq<char>>, now: Duration)
    ensures
        wants_no_more(view, view.all_started(ids, now), ids),
    decreases ids.len(),
{
    if ids.len() > 0 {
        let before = view.all_started(ids.drop_last(), now);
        restarts_want_what_is_listed(view, ids.drop_last(), now);
        asking_wants_one_more(before, ids.last(), now);
        assert forall|id: Seq<char>| #[trigger] is_wanted(view.all_started(ids, now), id) implies is_wanted(view, id) || ids.contains(id) by {
            if is_wanted(before, id) {
                if ids.drop_last().contains(id) {
                    let k = choose|k: int| 0 <= k < ids.drop_last().len() && ids.drop_last()[k] == id;
                    assert(ids[k] == id);
                }
            } else {
                assert(seq![ids.last()].contains(id));
                assert(ids[ids.len() - 1] == id);
            }
        }
    }
}

proof fn fewer_texts(list: Seq<Seq<char>>, text: Seq<char>, id: Seq<char>)
    requires
        texts_except(list, text).contains(id),
    ensures
        list.contains(id),
    decreases list.len(),
{
    if list.len() > 0 {
        let rest = texts_except(list.drop_last(), text);
        let k = choose|k: int| 0 <= k < texts_except(list, text).len() && texts_except(list, text)[k] == id;
        if k < rest.len() {
            assert(rest[k] == id);
            fewer_texts(list.drop_last(), text, id);
            let m = choose|m: int| 0 <= m < list.drop_last().len() && list.drop_last()[m] == id;
            assert(list[m] == id);
        } else {
            assert(list[list.len() - 1] == id);
        }
    }
}

proof fn registration_wants_no_more(view: ServerView, id: Seq<char>, previous: Option<RecordView>, next: Option<RecordView>, watch_retried: bool)
    ensures
        wants_no_more(view, view.registration_changed(id, previous, next, watch_retried).0, Seq::empty()),
        view.registration_changed(id, previous, next, watch_retried).1 ==> is_wanted(view, id),
{
    let moved = view.renumbered(id, previous, next).cache_moved(id, previous, next);
    let emptied = ServerView { deferred: texts_except(moved.deferred, id), ..moved };
    ending_touches_clients_only(emptied, id, "project_removed"@, moves(previous, next));
    let closed = if ends(previous, next) {
        moved.project_closed(id, moves(previous, next))
    } else {
        moved
    };
    broadcasting_only_sends(
        closed,
        closed.connections,
        "project.updated"@,
        updated_payload(id, event_path(previous, next), event_enabled(next)),
    );
    let after = view.registration_changed(id, previous, next, watch_retried).0;
    assert(after.active == view.active);
    assert forall|other: Seq<char>| #[trigger] is_wanted(after, other) implies is_wanted(view, other) by {
        if after.deferred != view.deferred && after.deferred.contains(other) {
            fewer_texts(view.deferred, id, other);
        }
    }
}

proof fn registrations_want_no_more(view: ServerView, ids: Seq<Seq<char>>, old: Seq<RecordView>, new: Seq<RecordView>, watch_retried: Seq<Seq<char>>)
    ensures
        ({
            let (changed, restart) = view.registrations_changed(ids, old, new, watch_retried);
            &&& wants_no_more(view, changed, Seq::empty())
            &&& forall|i: int| 0 <= i < restart.len() ==> is_wanted(view, #[trigger] restart[i])
        }),
    decreases ids.len(),
{
    if ids.len() > 0 {
        registrations_want_no_more(view, ids.drop_last(), old, new, watch_retried);
        let (before, earlier) = view.registrations_changed(ids.drop_last(), old, new, watch_retried);
        let id = ids.last();
        registration_wants_no_more(before, id, record_with(old, id), record_with(new, id), watch_retried.contains(id));
        let (changed, restart) = view.registrations_changed(ids, old, new, watch_retried);
        assert forall|other: Seq<char>| #[trigger] is_wanted(changed, other) implies is_wanted(view, other) by {
            assert(is_wanted(before, other));
        }
        assert forall|i: int| 0 <= i < restart.len() implies is_wanted(view, #[trigger] restart[i]) by {
            if i < earlier.len() {
                assert(restart[i] == earlier[i]);
            } else {
                assert(is_wanted(before, id));
            }
        }
    }
}

/// A change of the registry never fans out into snapshots: after it a snapshot
/// is being taken or asked for only where one was before.
pub proof fn registry_changes_ask_for_no_snapshots(view: ServerView, new: Seq<RecordView>, failed: Seq<Seq<char>>, now: Duration, id: Seq<char>)
    requires
        is_wanted(view.registry_replaced(new, failed, now), id),
    ensures
        is_wanted(view, id),
{
    let old = view.projects;
    let pending = pending_without(view.pending_watches, unwatched(old, new));
    let rewatched = ServerView { pending_watches: pending_after(new, old, pending, failed), ..view };
    let ids = ids_of(old) + added_ids(new, old);
    let again = retried(new, old, pending, failed);
    registrations_want_no_more(rewatched, ids, old, new, again);
    let (changed, restart) = rewatched.registrations_changed(ids, old, new, again);
    let placed = ServerView { projects: new, ..changed };
    restarts_want_what_is_listed(placed, restart, now);
    assert(is_wanted(placed.all_started(restart, now), id));
    if is_wanted(placed, id) {
        assert(is_wanted(changed, id));
        assert(is_wanted(rewatched, id));
    } else {
        let k = choose|k: int| 0 <= k < restart.len() && restart[k] == id;
        assert(is_wanted(rewatched, restart[k]));
    }
}

} // verus!
