//! What a change on disk sets in motion.

use crate::path::{components, path_joined, path_within, ComponentView};
use crate::path_laws::{joining_leads_below, lying_within_is_having_the_start};
use crate::project::RecordView;
use crate::server::model::ServerView;
use crate::server::registry_watch::{after, watching_place, REGISTRY_POLL_NANOS, WATCH_RETRY_NANOS};
use crate::state::{DirtyState, DirtyView};
use crate::time::Duration;
use vstd::prelude::*;

verus! {

/// The project is enabled, and the path is its directory `.jeff` or lies
/// below that, however deep.
pub open spec fn concerns(record: RecordView, path: Seq<char>) -> bool {
    let depth = components(record.path).len();
    &&& record.enabled
    &&& depth < components(path).len()
    &&& forall|i: int| 0 <= i < depth ==> components(path)[i] == #[trigger] components(record.path)[i]
    &&& components(path)[depth as int] == ComponentView::Name(seq!['.', 'j', 'e', 'f', 'f'])
}

/// The place is that of the first project which the path concerns.
pub open spec fn first_concerned(projects: Seq<RecordView>, path: Seq<char>, at: int) -> bool {
    &&& 0 <= at < projects.len()
    &&& concerns(projects[at], path)
    &&& forall|i: int| 0 <= i < at ==> !concerns(#[trigger] projects[i], path)
}

/// A change at `now` has been taken note of: the project waits until the quiet
/// window after it has passed or, if its command was running, runs once more.
pub open spec fn noted(before: DirtyView, later: DirtyView, id: Seq<char>, now: Duration) -> bool {
    &&& later.projects.dom().contains(id)
    &&& if before.projects.dom().contains(id) && before.projects[id] is Running {
        later.projects[id] == (DirtyState::Running { dirty_again: true })
    } else {
        later.projects[id] matches DirtyState::Debouncing(deadline) && deadline.nanos == now.nanos + before.window.nanos
    }
}

/// Nothing is known of the project that was not known before.
pub open spec fn untouched(before: DirtyView, later: DirtyView, id: Seq<char>) -> bool {
    &&& later.projects.dom().contains(id) == before.projects.dom().contains(id)
    &&& before.projects.dom().contains(id) ==> later.projects[id] == before.projects[id]
}

/// The two states differ in nothing but the debounce states and the time at
/// which the registry is to be read.
pub open spec fn only_timers_differ(a: ServerView, b: ServerView) -> bool {
    &&& b == (ServerView { dirty: b.dirty, registry_due: b.registry_due, ..a })
    &&& b.dirty.window == a.dirty.window
}

proof fn data_directories_are_recognised(record: RecordView, path: Seq<char>)
    ensures
        concerns(record, path) <==> record.enabled && path_within(path, path_joined(record.path, ".jeff"@)),
{
    reveal_strlit(".jeff");
    let name = seq!['.', 'j', 'e', 'f', 'f'];
    assert(".jeff"@ =~= name);
    assert(!name.contains('/'));
    assert(name.len() == 5);
    joining_leads_below(record.path, name);
    let base = path_joined(record.path, name);
    lying_within_is_having_the_start(path, base);
    let above = components(record.path);
    let all = components(base);
    assert(all == above.push(ComponentView::Name(name)));
    assert(all[above.len() as int] == ComponentView::Name(name));
    assert forall|i: int| 0 <= i < above.len() implies all[i] == above[i] by {}
    if concerns(record, path) {
        assert forall|i: int| 0 <= i < all.len() implies components(path)[i] == #[trigger] all[i] by {
            if i < above.len() {
                assert(components(record.path)[i] == all[i]);
            }
        }
    }
    if path_within(path, base) {
        assert forall|i: int| 0 <= i < above.len() implies components(path)[i] == #[trigger] components(record.path)[i] by {
            assert(components(base)[i] == all[i]);
        }
        assert(components(path)[above.len() as int] == components(base)[above.len() as int]);
    }
}

proof fn watching_place_is_the_first_concerned(projects: Seq<RecordView>, path: Seq<char>)
    ensures
        watching_place(projects, path) >= 0 ==> first_concerned(projects, path, watching_place(projects, path)),
        watching_place(projects, path) < 0 ==> forall|i: int| 0 <= i < projects.len() ==> !concerns(#[trigger] projects[i], path),
    decreases projects.len(),
{
    if projects.len() > 0 {
        let shorter = projects.drop_last();
        watching_place_is_the_first_concerned(shorter, path);
        data_directories_are_recognised(projects.last(), path);
        let at = watching_place(projects, path);
        assert forall|i: int| 0 <= i < shorter.len() implies shorter[i] == #[trigger] projects[i] by {}
        assert forall|i: int| 0 <= i < projects.len() && (at < 0 || i < at) implies !concerns(#[trigger] projects[i], path) by {
            if i < shorter.len() {
                assert(!concerns(shorter[i], path));
            }
        }
    }
}

/// A change below the data directory of an enabled project, at whatever
/// depth, is noted for the first such project, for no other, and does nothing
/// else; a change that concerns no project does nothing at all.
pub proof fn changes_are_noted_at_any_depth(view: ServerView, path: Seq<char>, now: Duration, at: int)
    requires
        components(path) != components(view.registry),
        now.nanos + view.dirty.window.nanos <= u128::MAX,
    ensures
        ({
            let later = view.path_changed(path, now);
            &&& first_concerned(view.projects, path, at) ==> {
                &&& noted(view.dirty, later.dirty, view.projects[at].id, now)
                &&& forall|other: Seq<char>| other != view.projects[at].id ==> #[trigger] untouched(view.dirty, later.dirty, other)
            }
            &&& (forall|i: int| 0 <= i < view.projects.len() ==> !concerns(#[trigger] view.projects[i], path)) ==> later == view
            &&& only_timers_differ(view, later)
            &&& later.registry_due == view.registry_due
        }),
{
    watching_place_is_the_first_concerned(view.projects, path);
    let found = watching_place(view.projects, path);
    if first_concerned(view.projects, path, at) {
        assert(found >= 0);
        assert(found == at);
    }
}

/// A change of the registry itself, however it is spelled, has it read again
/// 25 ms later and not before, and does nothing else.
pub proof fn the_registry_is_read_after_a_change(view: ServerView, path: Seq<char>, now: Duration, time: Duration)
    requires
        components(path) == components(view.registry),
        now.nanos + 25_000_000 <= u128::MAX,
    ensures
        view.path_changed(path, now).reload_due(time) <==> time.nanos >= now.nanos + 25_000_000,
        view.path_changed(path, now).dirty == view.dirty,
        only_timers_differ(view, view.path_changed(path, now)),
{
}

proof fn notes_last(a: DirtyView, b: DirtyView, c: DirtyView, id: Seq<char>, now: Duration)
    requires
        noted(a, b, id, now),
        noted(b, c, id, now) || untouched(b, c, id),
        b.window == a.window,
    ensures
        noted(a, c, id, now),
{
}

/// Of many changed paths each counts: the first project that a path concerns
/// is noted, a project that none concerns is not, and the registry is read
/// again if it is among them.
pub proof fn every_changed_path_counts(view: ServerView, paths: Seq<Seq<char>>, now: Duration)
    requires
        now.nanos + view.dirty.window.nanos <= u128::MAX,
        now.nanos + 25_000_000 <= u128::MAX,
    ensures
        ({
            let later = view.paths_changed(paths, now);
            &&& forall|k: int, at: int|
                0 <= k < paths.len() && components(paths[k]) != components(view.registry) && #[trigger] first_concerned(
                    view.projects,
                    paths[k],
                    at,
                ) ==> noted(view.dirty, later.dirty, view.projects[at].id, now)
            &&& forall|id: Seq<char>|
                (forall|k: int, at: int|
                    0 <= k < paths.len() && components(paths[k]) != components(view.registry) && #[trigger] first_concerned(
                        view.projects,
                        paths[k],
                        at,
                    ) ==> view.projects[at].id != id) ==> #[trigger] untouched(view.dirty, later.dirty, id)
            &&& if exists|k: int| 0 <= k < paths.len() && components(#[trigger] paths[k]) == components(view.registry) {
                later.registry_due matches Some(deadline) && deadline.nanos == now.nanos + 25_000_000
            } else {
                later.registry_due == view.registry_due
            }
            &&& only_timers_differ(view, later)
        }),
    decreases paths.len(),
{
    if paths.len() > 0 {
        let shorter = paths.drop_last();
        let last = paths.last();
        let before = view.paths_changed(shorter, now);
        let later = view.paths_changed(paths, now);
        every_changed_path_counts(view, shorter, now);
        assert forall|k: int| 0 <= k < shorter.len() implies shorter[k] == #[trigger] paths[k] by {}
        assert(before.projects == view.projects);
        assert(before.registry == view.registry);
        let registry = components(last) == components(view.registry);
        watching_place_is_the_first_concerned(view.projects, last);
        let found = watching_place(view.projects, last);
        if !registry {
            changes_are_noted_at_any_depth(before, last, now, found);
        }
        assert(paths[paths.len() - 1] == last);
        assert forall|k: int, at: int|
            0 <= k < paths.len() && components(paths[k]) != components(view.registry) && #[trigger] first_concerned(
                view.projects,
                paths[k],
                at,
            ) implies noted(view.dirty, later.dirty, view.projects[at].id, now) by {
            let id = view.projects[at].id;
            if k < shorter.len() {
                assert(first_concerned(view.projects, shorter[k], at));
                assert(noted(view.dirty, before.dirty, id, now));
                if registry || found < 0 {
                    assert(later.dirty == before.dirty);
                } else if view.projects[found].id != id {
                    assert(untouched(before.dirty, later.dirty, id));
                }
                notes_last(view.dirty, before.dirty, later.dirty, id, now);
            } else {
                assert(found == at);
                assert(noted(before.dirty, later.dirty, id, now));
                if exists|j: int, i: int|
                    0 <= j < shorter.len() && components(shorter[j]) != components(view.registry) && #[trigger] first_concerned(
                        view.projects,
                        shorter[j],
                        i,
                    ) && view.projects[i].id == id {
                    let (j, i) = choose|j: int, i: int|
                        0 <= j < shorter.len() && components(shorter[j]) != components(view.registry)
                            && #[trigger] first_concerned(view.projects, shorter[j], i) && view.projects[i].id == id;
                    assert(noted(view.dirty, before.dirty, id, now));
                    notes_last(view.dirty, before.dirty, later.dirty, id, now);
                } else {
                    assert(untouched(view.dirty, before.dirty, id));
                }
            }
        }
        assert forall|id: Seq<char>|
            (forall|k: int, at: int|
                0 <= k < paths.len() && components(paths[k]) != components(view.registry) && #[trigger] first_concerned(
                    view.projects,
                    paths[k],
                    at,
                ) ==> view.projects[at].id != id) implies #[trigger] untouched(view.dirty, later.dirty, id) by {
            assert forall|k: int, at: int|
                0 <= k < shorter.len() && components(shorter[k]) != components(view.registry) && #[trigger] first_concerned(
                    view.projects,
                    shorter[k],
                    at,
                ) implies view.projects[at].id != id by {
                assert(first_concerned(view.projects, paths[k], at));
            }
            assert(untouched(view.dirty, before.dirty, id));
            if !registry && found >= 0 {
                assert(first_concerned(view.projects, paths[paths.len() - 1], found));
                assert(untouched(before.dirty, later.dirty, id));
            } else {
                assert(later.dirty == before.dirty);
            }
        }
        if exists|k: int| 0 <= k < paths.len() && components(#[trigger] paths[k]) == components(view.registry) {
            let k = choose|k: int| 0 <= k < paths.len() && components(#[trigger] paths[k]) == components(view.registry);
            if !registry {
                assert(components(shorter[k]) == components(view.registry));
            }
        } else {
            assert forall|k: int| 0 <= k < shorter.len() implies components(#[trigger] shorter[k]) != components(view.registry) by {
                assert(components(paths[k]) != components(view.registry));
            }
        }
    }
}

/// Where changes may have been missed every enabled project is noted, and no
/// other.
pub proof fn missed_changes_concern_every_enabled_project(view: ServerView, list: Seq<RecordView>, now: Duration, id: Seq<char>)
    requires
        now.nanos + view.dirty.window.nanos <= u128::MAX,
    ensures
        ({
            let later = view.all_marked(list, now);
            &&& if exists|i: int| 0 <= i < list.len() && (#[trigger] list[i]).enabled && list[i].id == id {
                noted(view.dirty, later.dirty, id, now)
            } else {
                untouched(view.dirty, later.dirty, id)
            }
            &&& only_timers_differ(view, later)
            &&& later.registry_due == view.registry_due
        }),
    decreases list.len(),
{
    if list.len() > 0 {
        let shorter = list.drop_last();
        let before = view.all_marked(shorter, now);
        missed_changes_concern_every_enabled_project(view, shorter, now, id);
        assert forall|i: int| 0 <= i < shorter.len() implies shorter[i] == #[trigger] list[i] by {}
        let now_enabled = list.last().enabled && list.last().id == id;
        if exists|i: int| 0 <= i < list.len() && (#[trigger] list[i]).enabled && list[i].id == id {
            let i = choose|i: int| 0 <= i < list.len() && (#[trigger] list[i]).enabled && list[i].id == id;
            if !now_enabled {
                assert(shorter[i].enabled);
            }
            if i < shorter.len() {
                assert(shorter[i].enabled && shorter[i].id == id);
            }
        } else {
            assert(!now_enabled) by {
                assert(list[list.len() - 1] == list.last());
            }
            assert forall|i: int| 0 <= i < shorter.len() implies !((#[trigger] shorter[i]).enabled && shorter[i].id == id) by {
                assert(list[i] == shorter[i]);
            }
        }
    }
}

/// The registry is looked at every half second, a failed watch is tried again
/// every 25 ms, and both are due from their time on, not before.
pub proof fn timers_are_due_from_their_time_on(view: ServerView, now: Duration, time: Duration)
    requires
        now.nanos + 500_000_000 <= u128::MAX,
    ensures
        view.poll_due(time) <==> time.nanos >= view.registry_poll_due.nanos,
        (ServerView { registry_poll_due: after(now, REGISTRY_POLL_NANOS), ..view }).poll_due(time) <==> time.nanos >= now.nanos
            + 500_000_000,
        view.reload_due(time) <==> view.registry_due is Some && time.nanos >= (view.registry_due->0).nanos,
        view.retry_scheduled(now).retry_due(time) <==> view.pending_watches.len() > 0 && time.nanos >= now.nanos + 25_000_000,
        view.retry_scheduled(now) == (ServerView { watch_retry_due: view.retry_scheduled(now).watch_retry_due, ..view }),
        view.retry_due(time) <==> view.pending_watches.len() > 0 && (view.watch_retry_due is None || time.nanos >= (
        view.watch_retry_due->0).nanos),
        WATCH_RETRY_NANOS == 25_000_000,
{
}

} // verus!
