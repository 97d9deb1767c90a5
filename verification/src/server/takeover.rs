//! What a new registry makes of each project.

use crate::path::components;
use crate::project::RecordView;
use crate::server::attendance::{changed_ids_are_distinct, ids_distinct};
use crate::server::announcements::differ;
use crate::server::events::ending_touches_clients_only;
use crate::server::farewells::{ended_projects_are_wound_up, refusals_last, was_settled, was_turned_away, why_turned_away};
use crate::server::lists::runs_are_found;
use crate::server::membership::ended_projects_are_not_followed;
use crate::server::model::{active_place, record_with, subscriptions_for, texts_except, texts_with, EffectView, ServerView,
    SubscriptionView};
use crate::server::registry_watch::{pending_after, pending_without, retried, same_records, unwatched, updated_payload, watched};
use crate::server::replacement::{added_ids, broadcasting_only_sends, ends, event_enabled, event_path, ids_of, moves};
use crate::server::selection::{first_with_id, lookups_find_the_first};
use crate::server::unchanged::{a_registration_leaves_others, restarts_leave_projects, same_project};
use crate::time::Duration;
use vstd::prelude::*;

verus! {

// ---------------------------------------------------------------------------
// One project

/// The registration that a list has under an id, if it has one.
pub open spec fn is_registration(list: Seq<RecordView>, id: Seq<char>, record: Option<RecordView>) -> bool {
    match record {
        Some(record) => exists|at: int| #[trigger] first_with_id(list, id, at) && list[at] == record,
        None => forall|i: int| 0 <= i < list.len() ==> (#[trigger] list[i]).id != id,
    }
}

/// A project has been taken over from one registration to another: what is
/// known of one that stays in its place is kept under the new registration,
/// one that is new or elsewhere begins anew, and one that is gone is forgotten.
/// Every registration that differs gets a number of its own.
pub open spec fn is_taken_over(before: ServerView, after: ServerView, id: Seq<char>, previous: Option<RecordView>, next: Option<RecordView>, numbers: u64) -> bool {
    match next {
        None => {
            &&& !after.caches.dom().contains(id)
            &&& !after.generations.dom().contains(id)
        },
        Some(record) => {
            &&& after.generations.dom().contains(id)
            &&& after.generations[id] >= numbers
            &&& if previous is Some && components((previous->0).path) == components(record.path) {
                before.caches.dom().contains(id) ==> {
                    &&& after.caches.dom().contains(id)
                    &&& after.caches[id].record == record
                    &&& after.caches[id].projection == before.caches[id].projection
                    &&& after.caches[id].last_error == before.caches[id].last_error
                    &&& after.caches[id].last_successful_generation == before.caches[id].last_successful_generation
                    &&& after.caches[id].retained_bytes == before.caches[id].retained_bytes
                }
            } else {
                &&& after.caches.dom().contains(id)
                &&& after.caches[id].record == record
                &&& after.caches[id].projection is None
                &&& after.caches[id].last_error is None
                &&& after.caches[id].last_successful_generation is None
                &&& after.caches[id].retained_bytes == 0
            }
        },
    }
}

/// The project that clients followed is no more: it is gone or elsewhere, or
/// was enabled and is not any longer.
pub open spec fn is_over(previous: Option<RecordView>, next: Option<RecordView>) -> bool {
    previous matches Some(old) && match next {
        None => true,
        Some(new) => components(old.path) != components(new.path) || (old.enabled && !new.enabled),
    }
}

proof fn a_registration_is_taken_over(view: ServerView, id: Seq<char>, previous: Option<RecordView>, next: Option<RecordView>, watch_retried: bool)
    requires
        differ(previous, next),
        view.next_generation < u64::MAX,
    ensures
        ({
            let after = view.registration_changed(id, previous, next, watch_retried).0;
            &&& is_taken_over(view, after, id, previous, next, view.next_generation)
            &&& is_over(previous, next) ==> subscriptions_for(after.subscriptions, id).len() == 0
            &&& view.next_generation <= after.next_generation <= view.next_generation + 1
        }),
{
    let moved = view.renumbered(id, previous, next).cache_moved(id, previous, next);
    let emptied = ServerView { deferred: texts_except(moved.deferred, id), ..moved };
    let restart_gets = moves(previous, next);
    ending_touches_clients_only(emptied, id, "project_removed"@, restart_gets);
    ended_projects_are_not_followed(emptied, id, "project_removed"@, restart_gets);
    let closed = if ends(previous, next) {
        moved.project_closed(id, restart_gets)
    } else {
        moved
    };
    broadcasting_only_sends(
        closed,
        closed.connections,
        "project.updated"@,
        updated_payload(id, event_path(previous, next), event_enabled(next)),
    );
    if is_over(previous, next) {
        nobody_follows(emptied.project_ended(id, "project_removed"@, restart_gets).subscriptions, id);
    }
}

proof fn nobody_follows(list: Seq<SubscriptionView>, project: Seq<char>)
    requires
        forall|i: int| 0 <= i < list.len() ==> (#[trigger] list[i]).project_id != project,
    ensures
        subscriptions_for(list, project).len() == 0,
    decreases list.len(),
{
    if list.len() > 0 {
        assert(list[list.len() - 1].project_id != project);
        assert forall|i: int| 0 <= i < list.drop_last().len() implies (#[trigger] list.drop_last()[i]).project_id != project by {
            assert(list[i].project_id != project);
        }
        nobody_follows(list.drop_last(), project);
    }
}

proof fn numbers_only_grow(view: ServerView, id: Seq<char>, previous: Option<RecordView>, next: Option<RecordView>, watch_retried: bool)
    requires
        view.next_generation < u64::MAX,
    ensures
        ({
            let after = view.registration_changed(id, previous, next, watch_retried).0;
            view.next_generation <= after.next_generation <= view.next_generation + 1
        }),
{
    let moved = view.renumbered(id, previous, next).cache_moved(id, previous, next);
    let emptied = ServerView { deferred: texts_except(moved.deferred, id), ..moved };
    let restart_gets = moves(previous, next);
    ending_touches_clients_only(emptied, id, "project_removed"@, restart_gets);
    let closed = if ends(previous, next) {
        moved.project_closed(id, restart_gets)
    } else {
        moved
    };
    broadcasting_only_sends(
        closed,
        closed.connections,
        "project.updated"@,
        updated_payload(id, event_path(previous, next), event_enabled(next)),
    );
}

proof fn registrations_are_taken_over(view: ServerView, ids: Seq<Seq<char>>, old: Seq<RecordView>, new: Seq<RecordView>, watch_retried: Seq<Seq<char>>, id: Seq<char>)
    requires
        ids.no_duplicates(),
        view.next_generation + ids.len() < u64::MAX,
    ensures
        ({
            let after = view.registrations_changed(ids, old, new, watch_retried).0;
            let previous = record_with(old, id);
            let next = record_with(new, id);
            &&& view.next_generation <= after.next_generation <= view.next_generation + ids.len()
            &&& !ids.contains(id) ==> same_project(after, view, id)
            &&& ids.contains(id) && differ(previous, next) ==> {
                &&& is_taken_over(view, after, id, previous, next, view.next_generation)
                &&& is_over(previous, next) ==> subscriptions_for(after.subscriptions, id).len() == 0
            }
        }),
    decreases ids.len(),
{
    if ids.len() > 0 {
        let shorter = ids.drop_last();
        let last = ids.last();
        registrations_are_taken_over(view, shorter, old, new, watch_retried, id);
        let before = view.registrations_changed(shorter, old, new, watch_retried).0;
        let after = view.registrations_changed(ids, old, new, watch_retried).0;
        numbers_only_grow(before, last, record_with(old, last), record_with(new, last), watch_retried.contains(last));
        assert(ids[ids.len() - 1] == last);
        if last != id {
            a_registration_leaves_others(
                before,
                last,
                record_with(old, last),
                record_with(new, last),
                watch_retried.contains(last),
                id,
            );
            assert(ids.contains(id) == shorter.contains(id)) by {
                if ids.contains(id) {
                    let k = choose|k: int| 0 <= k < ids.len() && ids[k] == id;
                    assert(shorter[k] == id);
                }
                if shorter.contains(id) {
                    let k = choose|k: int| 0 <= k < shorter.len() && shorter[k] == id;
                    assert(ids[k] == id);
                }
            }
        } else {
            assert(!shorter.contains(id)) by {
                if shorter.contains(id) {
                    let k = choose|k: int| 0 <= k < shorter.len() && shorter[k] == id;
                    assert(ids[k] == ids[ids.len() - 1]);
                }
            }
            if differ(record_with(old, id), record_with(new, id)) {
                a_registration_is_taken_over(before, id, record_with(old, id), record_with(new, id), watch_retried.contains(id));
            }
        }
    }
}

/// The ids that are in a new registry only, each once.
pub proof fn added_ids_are_those_that_are_new(new: Seq<RecordView>, old: Seq<RecordView>, id: Seq<char>)
    ensures
        added_ids(new, old).contains(id) <==> (exists|i: int| 0 <= i < new.len() && (#[trigger] new[i]).id == id) && (forall|i: int|
            0 <= i < old.len() ==> (#[trigger] old[i]).id != id),
    decreases new.len(),
{
    crate::server::selection::record_places_are_first(old, id);
    if new.len() > 0 {
        let shorter = new.drop_last();
        let before = added_ids(shorter, old);
        let all = added_ids(new, old);
        added_ids_are_those_that_are_new(shorter, old, id);
        if before.contains(id) {
            let k = choose|k: int| 0 <= k < before.len() && before[k] == id;
            assert(all[k] == id);
        }
        if all.contains(id) && !before.contains(id) {
            let k = choose|k: int| 0 <= k < all.len() && all[k] == id;
            if k < before.len() {
                assert(before[k] == id);
            }
            assert(new.last().id == id);
        }
        if exists|i: int| 0 <= i < shorter.len() && (#[trigger] shorter[i]).id == id {
            let i = choose|i: int| 0 <= i < shorter.len() && (#[trigger] shorter[i]).id == id;
            assert(new[i].id == id);
        }
        if exists|i: int| 0 <= i < new.len() && (#[trigger] new[i]).id == id {
            let i = choose|i: int| 0 <= i < new.len() && (#[trigger] new[i]).id == id;
            if i < shorter.len() {
                assert(shorter[i].id == id);
            } else if record_with(old, id) is None {
                assert(all[all.len() - 1] == id);
            }
        }
        if new.last().id == id {
            assert(new[new.len() - 1].id == id);
        }
    }
}

/// A new registry takes every project over whose registration differs: what is
/// gone is forgotten, what is elsewhere begins anew, what stays keeps what is
/// known of it, under a new number; and nobody follows any longer what is over.
pub proof fn registries_are_taken_over(view: ServerView, new: Seq<RecordView>, failed: Seq<Seq<char>>, now: Duration, id: Seq<char>, previous: Option<RecordView>, next: Option<RecordView>)
    requires
        ids_distinct(view.projects),
        ids_distinct(new),
        view.next_generation + view.projects.len() + new.len() < u64::MAX,
        is_registration(view.projects, id, previous),
        is_registration(new, id, next),
        differ(previous, next),
    ensures
        ({
            let after = view.registry_replaced(new, failed, now);
            &&& after.projects == new
            &&& is_taken_over(view, after, id, previous, next, view.next_generation)
            &&& is_over(previous, next) ==> subscriptions_for(after.subscriptions, id).len() == 0
        }),
{
    let old = view.projects;
    registrations_are_looked_up(old, id, previous);
    registrations_are_looked_up(new, id, next);
    let pending = pending_without(view.pending_watches, unwatched(old, new));
    let rewatched = ServerView { pending_watches: pending_after(new, old, pending, failed), ..view };
    let own = ids_of(old);
    let added = added_ids(new, old);
    let ids = own + added;
    let again = retried(new, old, pending, failed);
    changed_ids_are_distinct(new, old);
    added_ids_are_few(new, old);
    assert(ids.contains(id)) by {
        match previous {
            Some(record) => {
                let at = choose|at: int| #[trigger] first_with_id(old, id, at) && old[at] == record;
                assert(own[at] == id);
                assert(ids[at] == id);
            },
            None => {
                let record = next->0;
                let at = choose|at: int| #[trigger] first_with_id(new, id, at) && new[at] == record;
                assert(new[at].id == id);
                added_ids_are_those_that_are_new(new, old, id);
                let k = choose|k: int| 0 <= k < added.len() && added[k] == id;
                assert(ids[own.len() + k] == id);
            },
        }
    }
    registrations_are_taken_over(rewatched, ids, old, new, again, id);
    let (changed, restart) = rewatched.registrations_changed(ids, old, new, again);
    let settled = ServerView { projects: new, ..changed };
    restarts_leave_projects(settled, restart, now);
    restarts_leave_registry(settled, restart, now);
}

proof fn added_ids_are_few(new: Seq<RecordView>, old: Seq<RecordView>)
    ensures
        added_ids(new, old).len() <= new.len(),
    decreases new.len(),
{
    if new.len() > 0 {
        added_ids_are_few(new.drop_last(), old);
    }
}

proof fn restarts_leave_registry(view: ServerView, ids: Seq<Seq<char>>, now: Duration)
    ensures
        view.all_started(ids, now).projects == view.projects,
    decreases ids.len(),
{
    if ids.len() > 0 {
        restarts_leave_registry(view, ids.drop_last(), now);
        crate::server::runs::asking_starts_runs(view.all_started(ids.drop_last(), now), ids.last(), now);
    }
}

proof fn registrations_are_looked_up(list: Seq<RecordView>, id: Seq<char>, record: Option<RecordView>)
    requires
        is_registration(list, id, record),
    ensures
        record_with(list, id) == record,
{
    match record {
        Some(found) => {
            let at = choose|at: int| #[trigger] first_with_id(list, id, at) && list[at] == found;
            lookups_find_the_first(list, id, at);
        },
        None => {
            lookups_find_the_first(list, id, 0);
        },
    }
}

/// The command of a project that is over is told to stop.
pub proof fn commands_of_ended_projects_are_stopped(view: ServerView, id: Seq<char>, k: int)
    requires
        0 <= k < view.active.len(),
        view.active[k].record.id == id,
        forall|i: int| 0 <= i < view.active.len() && i != k ==> (#[trigger] view.active[i]).record.id != id,
    ensures
        view.run_cancelled(id).effects == view.effects.push(EffectView::Cancel { run: view.active[k] }),
        view.run_cancelled(id).active == view.active,
{
    runs_are_found(view.active, id);
    let at = active_place(view.active, id);
    assert(view.active[k].record.id == id);
    assert(at == k);
}

// ---------------------------------------------------------------------------
// Watches

/// An enabled project is watched no longer where it was if the new registry
/// lacks it, disables it or has it elsewhere.
pub proof fn left_places_are_not_watched(old: Seq<RecordView>, new: Seq<RecordView>)
    ensures
        unwatched(old, new) == old.filter(
            |r: RecordView|
                r.enabled && match record_with(new, r.id) {
                    None => true,
                    Some(n) => !n.enabled || components(n.path) != components(r.path),
                },
        ),
    decreases old.len(),
{
    reveal(Seq::filter);
    if old.len() > 0 {
        left_places_are_not_watched(old.drop_last(), new);
    } else {
        assert(unwatched(old, new) =~= old.filter(
            |r: RecordView|
                r.enabled && match record_with(new, r.id) {
                    None => true,
                    Some(n) => !n.enabled || components(n.path) != components(r.path),
                },
        ));
    }
}

/// A watch is to be set for the project: it is enabled, and either it was not
/// there, not enabled or elsewhere before, or its watch is still pending.
pub open spec fn is_to_be_watched(record: RecordView, previous: Option<RecordView>, pending: Seq<Seq<char>>) -> bool {
    &&& record.enabled
    &&& match previous {
        None => true,
        Some(p) => !p.enabled || components(p.path) != components(record.path) || pending.contains(record.id),
    }
}

/// The projects to watch are those for which a watch is to be set, in order.
pub proof fn new_places_are_watched(new: Seq<RecordView>, old: Seq<RecordView>, pending: Seq<Seq<char>>)
    ensures
        watched(new, old, pending) == new.filter(|r: RecordView| is_to_be_watched(r, record_with(old, r.id), pending)),
    decreases new.len(),
{
    reveal(Seq::filter);
    if new.len() > 0 {
        new_places_are_watched(new.drop_last(), old, pending);
    } else {
        assert(watched(new, old, pending) =~= new.filter(
            |r: RecordView| is_to_be_watched(r, record_with(old, r.id), pending),
        ));
    }
}

proof fn other_texts_remain(list: Seq<Seq<char>>, text: Seq<char>, other: Seq<char>)
    ensures
        texts_except(list, text).contains(other) <==> list.contains(other) && other != text,
    decreases list.len(),
{
    if list.len() > 0 {
        let shorter = list.drop_last();
        let before = texts_except(shorter, text);
        let all = texts_except(list, text);
        other_texts_remain(shorter, text, other);
        if before.contains(other) {
            let k = choose|k: int| 0 <= k < before.len() && before[k] == other;
            assert(all[k] == other);
            let m = choose|m: int| 0 <= m < shorter.len() && shorter[m] == other;
            assert(list[m] == other);
        }
        if all.contains(other) && !before.contains(other) {
            let k = choose|k: int| 0 <= k < all.len() && all[k] == other;
            if k < before.len() {
                assert(before[k] == other);
            }
            assert(list[list.len() - 1] == other);
        }
        if list.contains(other) && other != text {
            let m = choose|m: int| 0 <= m < list.len() && list[m] == other;
            if m < shorter.len() {
                assert(shorter[m] == other);
            } else {
                assert(all[all.len() - 1] == other);
            }
        }
    }
}

/// What is pending once some projects are not watched any longer: all that was,
/// but for these.
pub proof fn unwatched_projects_are_not_pending(pending: Seq<Seq<char>>, list: Seq<RecordView>, id: Seq<char>)
    ensures
        pending_without(pending, list).contains(id) <==> pending.contains(id) && forall|i: int|
            0 <= i < list.len() ==> (#[trigger] list[i]).id != id,
    decreases list.len(),
{
    if list.len() > 0 {
        let shorter = list.drop_last();
        unwatched_projects_are_not_pending(pending, shorter, id);
        other_texts_remain(pending_without(pending, shorter), list.last().id, id);
        assert forall|i: int| 0 <= i < shorter.len() implies #[trigger] shorter[i] == list[i] by {}
        if (forall|i: int| 0 <= i < list.len() ==> (#[trigger] list[i]).id != id) {
            assert forall|i: int| 0 <= i < shorter.len() implies (#[trigger] shorter[i]).id != id by {
                assert(list[i].id != id);
            }
            assert(list[list.len() - 1].id != id);
        }
        if (forall|i: int| 0 <= i < shorter.len() ==> (#[trigger] shorter[i]).id != id) && list.last().id != id {
            assert forall|i: int| 0 <= i < list.len() implies (#[trigger] list[i]).id != id by {
                if i < shorter.len() {
                    assert(shorter[i].id != id);
                }
            }
        }
    }
}

/// After the attempts a project is pending exactly if its watch failed now, or
/// it is enabled, was pending and no attempt was made; a disabled one is not.
pub proof fn failed_watches_are_pending(new: Seq<RecordView>, old: Seq<RecordView>, pending: Seq<Seq<char>>, failed: Seq<Seq<char>>, at: int)
    requires
        ids_distinct(new),
        0 <= at < new.len(),
    ensures
        pending_after(new, old, pending, failed).contains(new[at].id) <==> new[at].enabled && if is_to_be_watched(
            new[at],
            record_with(old, new[at].id),
            pending,
        ) {
            failed.contains(new[at].id)
        } else {
            pending.contains(new[at].id)
        },
        retried(new, old, pending, failed).contains(new[at].id) <==> is_to_be_watched(
            new[at],
            record_with(old, new[at].id),
            pending,
        ) && pending.contains(new[at].id) && !failed.contains(new[at].id),
    decreases new.len(),
{
    let shorter = new.drop_last();
    let last = new.last();
    let id = new[at].id;
    let before = pending_after(shorter, old, pending, failed);
    let early = retried(shorter, old, pending, failed);
    let all = retried(new, old, pending, failed);
    assert(ids_distinct(shorter)) by {
        assert forall|i: int, j: int| 0 <= i < j < shorter.len() implies (#[trigger] shorter[i]).id != (#[trigger] shorter[j]).id by {
            assert(new[i].id != new[j].id);
        }
    }
    other_texts_remain(before, last.id, id);
    crate::server::lists::texts_are_put_in_once(before, last.id);
    if all.contains(id) && id != last.id {
        let k = choose|k: int| 0 <= k < all.len() && all[k] == id;
        assert(early[k] == id);
    }
    if early.contains(id) {
        let k = choose|k: int| 0 <= k < early.len() && early[k] == id;
        assert(all[k] == id);
    }
    if at < new.len() - 1 {
        assert(new[at].id != new[new.len() - 1].id);
        assert(shorter[at] == new[at]);
        failed_watches_are_pending(shorter, old, pending, failed, at);
        assert(texts_with(before, last.id).contains(id) == before.contains(id)) by {
            if texts_with(before, last.id).contains(id) {
                let k = choose|k: int| 0 <= k < texts_with(before, last.id).len() && texts_with(before, last.id)[k] == id;
                assert(before[k] == id);
            }
            if before.contains(id) {
                let k = choose|k: int| 0 <= k < before.len() && before[k] == id;
                assert(texts_with(before, last.id)[k] == id);
            }
        }
    } else {
        pending_of_others_stays(shorter, old, pending, failed, id);
        if all.len() > early.len() {
            assert(all[all.len() - 1] == last.id);
        }
    }
}

proof fn pending_of_others_stays(new: Seq<RecordView>, old: Seq<RecordView>, pending: Seq<Seq<char>>, failed: Seq<Seq<char>>, id: Seq<char>)
    requires
        forall|i: int| 0 <= i < new.len() ==> (#[trigger] new[i]).id != id,
    ensures
        pending_after(new, old, pending, failed).contains(id) == pending.contains(id),
        !retried(new, old, pending, failed).contains(id),
    decreases new.len(),
{
    if new.len() > 0 {
        let shorter = new.drop_last();
        let last = new.last();
        assert(new[new.len() - 1].id != id);
        assert forall|i: int| 0 <= i < shorter.len() implies (#[trigger] shorter[i]).id != id by {
            assert(new[i].id != id);
        }
        pending_of_others_stays(shorter, old, pending, failed, id);
        let before = pending_after(shorter, old, pending, failed);
        other_texts_remain(before, last.id, id);
        let more = texts_with(before, last.id);
        if more.contains(id) {
            let k = choose|k: int| 0 <= k < more.len() && more[k] == id;
            assert(before[k] == id);
        }
        if before.contains(id) {
            let k = choose|k: int| 0 <= k < before.len() && before[k] == id;
            assert(more[k] == id);
        }
        let early = retried(shorter, old, pending, failed);
        let all = retried(new, old, pending, failed);
        if all.contains(id) {
            let k = choose|k: int| 0 <= k < all.len() && all[k] == id;
            assert(early[k] == id);
        }
    }
}

/// Two registries are the same exactly if they have the same registrations in
/// the same order, none of which differs.
pub proof fn registries_are_compared_record_by_record(a: Seq<RecordView>, b: Seq<RecordView>)
    ensures
        same_records(a, b) <==> a.len() == b.len() && forall|i: int| 0 <= i < a.len() ==> !differ(Some(#[trigger] a[i]), Some(b[i])),
{
    if same_records(a, b) {
        assert forall|i: int| 0 <= i < a.len() implies !differ(Some(#[trigger] a[i]), Some(b[i])) by {
            assert(crate::project::same_record(a[i], b[i]));
        }
    }
    if a.len() == b.len() && (forall|i: int| 0 <= i < a.len() ==> !differ(Some(#[trigger] a[i]), Some(b[i]))) {
        assert forall|i: int| 0 <= i < a.len() implies crate::project::same_record(#[trigger] a[i], b[i]) by {
            assert(!differ(Some(a[i]), Some(b[i])));
        }
    }
}

/// Of those who wait for a project that is over, plain requests wait on if it
/// lives on elsewhere, enabled, and everyone else is turned away; of a project
/// that is not over everyone waits on.
pub proof fn requests_follow_a_project_that_moves(view: ServerView, id: Seq<char>, previous: Option<RecordView>, next: Option<RecordView>, watch_retried: bool, j: int)
    requires
        differ(previous, next),
        0 <= j < view.waiters.len(),
        view.waiters[j].project_id == id,
        view.connected(view.waiters[j].connection),
    ensures
        ({
            let after = view.registration_changed(id, previous, next, watch_retried).0;
            let waiter = view.waiters[j];
            let lives_on = next matches Some(new) && new.enabled && (previous matches Some(old) && components(old.path) != components(
                new.path,
            ));
            &&& !is_over(previous, next) ==> after.waiters == view.waiters
            &&& is_over(previous, next) && lives_on && waiter.kind is Get ==> after.waiters.contains(waiter)
            &&& is_over(previous, next) && !(lives_on && waiter.kind is Get) ==> was_turned_away(
                view,
                after,
                waiter,
                why_turned_away(waiter),
            )
        }),
{
    let moved = view.renumbered(id, previous, next).cache_moved(id, previous, next);
    let lives_on = moves(previous, next);
    let closed = if ends(previous, next) {
        moved.project_closed(id, lives_on)
    } else {
        moved
    };
    let payload = updated_payload(id, event_path(previous, next), event_enabled(next));
    broadcasting_only_sends(closed, closed.connections, "project.updated"@, payload);
    let after = view.registration_changed(id, previous, next, watch_retried).0;
    if ends(previous, next) {
        let waiter = view.waiters[j];
        ended_projects_are_wound_up(moved, id, lives_on);
        assert(moved.waiters[j] == waiter);
        assert(moved.connected(waiter.connection));
        assert(was_settled(moved, closed, moved.waiters[j], lives_on));
        crate::server::announcements::broadcasts_only_add(closed, "project.updated"@, payload);
        if !(lives_on && waiter.kind is Get) {
            crate::server::answers::nothing_is_added(view, moved);
            refusals_last(view, moved, closed, after, waiter, why_turned_away(waiter));
        }
    }
}

/// A registration that is new or changed gets the next number, which no other
/// gets; all others keep theirs, and one that is gone uses none up.
pub proof fn every_registration_has_its_own_number(view: ServerView, id: Seq<char>, previous: Option<RecordView>, next: Option<RecordView>, watch_retried: bool, other: Seq<char>)
    requires
        differ(previous, next),
        view.next_generation < u64::MAX,
        other != id,
    ensures
        ({
            let after = view.registration_changed(id, previous, next, watch_retried).0;
            &&& next is Some ==> {
                &&& after.generations.dom().contains(id)
                &&& after.generations[id] == view.next_generation
                &&& after.next_generation == view.next_generation + 1
            }
            &&& next is None ==> after.next_generation == view.next_generation
            &&& after.generations.dom().contains(other) == view.generations.dom().contains(other)
            &&& view.generations.dom().contains(other) ==> after.generations[other] == view.generations[other]
        }),
{
    let moved = view.renumbered(id, previous, next).cache_moved(id, previous, next);
    let emptied = ServerView { deferred: texts_except(moved.deferred, id), ..moved };
    let restart_gets = moves(previous, next);
    ending_touches_clients_only(emptied, id, "project_removed"@, restart_gets);
    let closed = if ends(previous, next) {
        moved.project_closed(id, restart_gets)
    } else {
        moved
    };
    broadcasting_only_sends(
        closed,
        closed.connections,
        "project.updated"@,
        updated_payload(id, event_path(previous, next), event_enabled(next)),
    );
}

} // verus!
