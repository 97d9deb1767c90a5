//! Taking over a changed registry.

use crate::json::JsonView;
use crate::path::{paths_equal, same_path};
use crate::project::{same_record, ProjectRecord, RecordView};
use crate::server::model::{active_place, record_with, subscriptions_beside, subscriptions_for, texts_except,
    waiters_for, Connection, Effect, EffectView, ServerView, SubscriptionView, WaiterView};
use crate::server::registry_watch::{find_unwatched, is_watch_wanted, lookup, pending_after, pending_without, retried,
    unwatched, updated_payload, without_text};
use crate::server::snapshots::holds_text;
use crate::server::{cache_views_insert, cache_views_remove, Server};
use crate::state::{fresh_cache, CacheView, ProjectCache};
use crate::time::Duration;
use crate::views::{option_view, views, views_push};
use vstd::prelude::*;

verus! {

/// Both are missing, or both are there and the same.
pub open spec fn same_registration(a: Option<RecordView>, b: Option<RecordView>) -> bool {
    match (a, b) {
        (Some(a), Some(b)) => same_record(a, b),
        (None, None) => true,
        _ => false,
    }
}

/// The project is still at the same place, so what is known of it holds.
pub open spec fn stays(previous: Option<RecordView>, next: Option<RecordView>) -> bool {
    match (previous, next) {
        (Some(a), Some(b)) => same_path(a.path, b.path),
        _ => false,
    }
}

/// The project that clients followed is no more: it went elsewhere, was
/// disabled or removed.
pub open spec fn ends(previous: Option<RecordView>, next: Option<RecordView>) -> bool {
    match (previous, next) {
        (Some(a), Some(b)) => !same_path(a.path, b.path) || (a.enabled && !b.enabled),
        (Some(_), None) => true,
        _ => false,
    }
}

/// The project lives on elsewhere.
pub open spec fn moves(previous: Option<RecordView>, next: Option<RecordView>) -> bool {
    match (previous, next) {
        (Some(a), Some(b)) => !same_path(a.path, b.path) && b.enabled,
        _ => false,
    }
}

pub open spec fn event_path(previous: Option<RecordView>, next: Option<RecordView>) -> Seq<char> {
    match next {
        Some(next) => next.path,
        None => match previous {
            Some(previous) => previous.path,
            None => Seq::empty(),
        },
    }
}

pub open spec fn event_enabled(next: Option<RecordView>) -> bool {
    next matches Some(next) && next.enabled
}

pub open spec fn ids_of(projects: Seq<RecordView>) -> Seq<Seq<char>> {
    Seq::new(projects.len(), |i: int| projects[i].id)
}

/// The ids of the projects that are in `new` only.
pub open spec fn added_ids(new: Seq<RecordView>, old: Seq<RecordView>) -> Seq<Seq<char>>
    decreases new.len(),
{
    if new.len() == 0 {
        Seq::empty()
    } else if record_with(old, new.last().id) is None {
        added_ids(new.drop_last(), old).push(new.last().id)
    } else {
        added_ids(new.drop_last(), old)
    }
}

impl ServerView {
    /// A changed registration gets a new number, so that runs for the earlier
    /// one are recognised.
    pub open spec fn renumbered(self, id: Seq<char>, previous: Option<RecordView>, next: Option<RecordView>) -> ServerView {
        if same_registration(previous, next) {
            self
        } else if next is Some {
            ServerView {
                generations: self.generations.insert(id, self.next_generation),
                next_generation: (self.next_generation + 1) as u64,
                ..self
            }
        } else {
            ServerView { generations: self.generations.remove(id), ..self }
        }
    }

    /// The retained bytes without those of one cache.
    pub open spec fn retained_without(self, id: Seq<char>) -> usize {
        let old = self.old_retained(id);
        if self.retained_cache_bytes >= old {
            (self.retained_cache_bytes - old) as usize
        } else {
            0
        }
    }

    /// The cache of a project that stays is kept; any other starts anew or is
    /// dropped, and its bytes no longer count.
    pub open spec fn cache_moved(self, id: Seq<char>, previous: Option<RecordView>, next: Option<RecordView>) -> ServerView {
        match next {
            Some(record) => if stays(previous, next) {
                if self.caches.dom().contains(id) {
                    ServerView { caches: self.caches.insert(id, CacheView { record, ..self.caches[id] }), ..self }
                } else {
                    self
                }
            } else {
                ServerView {
                    caches: self.caches.insert(id, fresh_cache(record)),
                    retained_cache_bytes: self.retained_without(id),
                    ..self
                }
            },
            None => ServerView {
                caches: self.caches.remove(id),
                retained_cache_bytes: self.retained_without(id),
                ..self
            },
        }
    }

    /// A run of the project is to be stopped if there is one.
    pub open spec fn run_cancelled(self, id: Seq<char>) -> ServerView {
        let at = active_place(self.active, id);
        if at >= 0 {
            self.with_effect(EffectView::Cancel { run: self.active[at] })
        } else {
            self
        }
    }

    /// A project ended: nothing of it is scheduled, followed or waited for
    /// any more, but for plain requests if it lives on elsewhere.
    pub open spec fn project_closed(self, id: Seq<char>, restart_gets: bool) -> ServerView {
        let told = ServerView { deferred: texts_except(self.deferred, id), ..self }.project_ended(
            id,
            "project_removed"@,
            restart_gets,
        ).run_cancelled(id);
        told.with_dirty(told.dirty.forgotten(id))
    }

    /// One project's registration changes. The second part says whether its
    /// snapshot is to be started once the registry is in place.
    pub open spec fn registration_changed(self, id: Seq<char>, previous: Option<RecordView>, next: Option<RecordView>, watch_retried: bool) -> (ServerView, bool) {
        if same_registration(previous, next) && !watch_retried {
            (self, false)
        } else {
            let moved = self.renumbered(id, previous, next).cache_moved(id, previous, next);
            let restart_gets = moves(previous, next);
            let closed = if ends(previous, next) {
                moved.project_closed(id, restart_gets)
            } else {
                moved
            };
            (
                closed.broadcast("project.updated"@, updated_payload(id, event_path(previous, next), event_enabled(next))),
                ends(previous, next) && restart_gets && moved.deferred.contains(id) && waiters_for(closed.waiters, id).len() > 0,
            )
        }
    }

    pub open spec fn registrations_changed(self, ids: Seq<Seq<char>>, old: Seq<RecordView>, new: Seq<RecordView>, watch_retried: Seq<Seq<char>>) -> (ServerView, Seq<Seq<char>>)
        decreases ids.len(),
    {
        if ids.len() == 0 {
            (self, Seq::empty())
        } else {
            let (before, restart) = self.registrations_changed(ids.drop_last(), old, new, watch_retried);
            let id = ids.last();
            let (changed, again) = before.registration_changed(
                id,
                record_with(old, id),
                record_with(new, id),
                watch_retried.contains(id),
            );
            (
                changed,
                if again {
                    restart.push(id)
                } else {
                    restart
                },
            )
        }
    }

    pub open spec fn all_started(self, ids: Seq<Seq<char>>, now: Duration) -> ServerView
        decreases ids.len(),
    {
        if ids.len() == 0 {
            self
        } else {
            self.all_started(ids.drop_last(), now).started(ids.last(), now)
        }
    }

    /// The registry is replaced, after the watches were tried and those in
    /// `failed` could not be set.
    pub open spec fn registry_replaced(self, new: Seq<RecordView>, failed: Seq<Seq<char>>, now: Duration) -> ServerView {
        let old = self.projects;
        let pending = pending_without(self.pending_watches, unwatched(old, new));
        let rewatched = ServerView { pending_watches: pending_after(new, old, pending, failed), ..self };
        let (changed, restart) = rewatched.registrations_changed(
            ids_of(old) + added_ids(new, old),
            old,
            new,
            retried(new, old, pending, failed),
        );
        ServerView { projects: new, ..changed }.all_started(restart, now).retry_scheduled(now)
    }
}

// ---------------------------------------------------------------------------
// What the steps leave alone

/// Sending an event to everyone touches no more than the ledger and what is
/// to be done outside.
pub proof fn broadcasting_only_sends(view: ServerView, connections: Seq<Connection>, name: Seq<char>, payload: JsonView)
    ensures
        ({
            let sent = view.broadcast_to(connections, name, payload);
            sent == (ServerView { ledger: sent.ledger, effects: sent.effects, ..view })
        }),
    decreases connections.len(),
{
    if connections.len() > 0 {
        broadcasting_only_sends(view, connections.drop_last(), name, payload);
    }
}

/// Ending subscriptions that have left the list touches no more than the
/// ledger and what is to be done outside.
pub proof fn ending_only_sends(view: ServerView, list: Seq<SubscriptionView>, reason: Seq<char>)
    ensures
        ({
            let sent = view.subscriptions_ended(list, reason);
            sent == (ServerView { ledger: sent.ledger, effects: sent.effects, ..view })
        }),
    decreases list.len(),
{
    if list.len() > 0 {
        ending_only_sends(view, list.drop_last(), reason);
    }
}

/// Displacing waiting requests touches no more than the waiters, the ledger
/// and what is to be done outside.
pub proof fn displacing_only_sends(view: ServerView, list: Seq<WaiterView>, restart_gets: bool)
    ensures
        ({
            let sent = view.waiters_displaced(list, restart_gets);
            sent == (ServerView { ledger: sent.ledger, effects: sent.effects, waiters: sent.waiters, ..view })
        }),
    decreases list.len(),
{
    if list.len() > 0 {
        displacing_only_sends(view, list.drop_last(), restart_gets);
    }
}

proof fn closing_keeps(view: ServerView, id: Seq<char>, restart_gets: bool)
    ensures
        ({
            let closed = view.project_closed(id, restart_gets);
            &&& closed.dirty.window == view.dirty.window
            &&& closed.next_generation == view.next_generation
            &&& closed.projects == view.projects
            &&& closed.pending_watches == view.pending_watches
        }),
{
    let start = ServerView { deferred: texts_except(view.deferred, id), ..view };
    let taken = ServerView { subscriptions: subscriptions_beside(start.subscriptions, id), ..start };
    let list = subscriptions_for(start.subscriptions, id);
    ending_only_sends(taken, list, "project_removed"@);
    let told = taken.subscriptions_ended(list, "project_removed"@);
    displacing_only_sends(told.waiters_taken(id), waiters_for(told.waiters, id), restart_gets);
}

proof fn changing_keeps(view: ServerView, id: Seq<char>, previous: Option<RecordView>, next: Option<RecordView>, watch_retried: bool)
    requires
        view.next_generation < u64::MAX,
    ensures
        ({
            let changed = view.registration_changed(id, previous, next, watch_retried).0;
            &&& changed.dirty.window == view.dirty.window
            &&& changed.next_generation <= view.next_generation + 1
            &&& changed.projects == view.projects
            &&& changed.pending_watches == view.pending_watches
        }),
{
    let moved = view.renumbered(id, previous, next).cache_moved(id, previous, next);
    closing_keeps(moved, id, moves(previous, next));
    let closed = if ends(previous, next) {
        moved.project_closed(id, moves(previous, next))
    } else {
        moved
    };
    broadcasting_only_sends(
        closed,
        closed.connections,
        "project.updated"@,
        updated_payload(id, event_path(previous, next), event_enabled(next)),
    );
}

pub(crate) proof fn launching_keeps_window(view: ServerView, now: Duration)
    ensures
        view.deferred_launched(now).dirty.window == view.dirty.window,
        view.deferred_launched(now).pending_watches == view.pending_watches,
    decreases view.deferred.len(),
{
    if view.active.len() >= view.limits.active_snapshots || view.deferred.len() == 0 {
    } else {
        let id = view.deferred[0];
        let rest = ServerView { deferred: view.deferred.drop_first(), ..view };
        if rest.is_active(id) {
            launching_keeps_window(rest, now);
        } else {
            match rest.enabled_record(id) {
                None => launching_keeps_window(rest.with_dirty(rest.dirty.ended(id, now)), now),
                Some(record) => launching_keeps_window(rest.launched(record, now), now),
            }
        }
    }
}

pub(crate) proof fn starting_keeps_window(view: ServerView, id: Seq<char>, now: Duration)
    ensures
        view.started(id, now).dirty.window == view.dirty.window,
        view.started(id, now).pending_watches == view.pending_watches,
{
    if !(view.is_active(id) || view.deferred.contains(id) || view.dirty.running(id)) {
        launching_keeps_window(
            ServerView { dirty: view.dirty.started(id), deferred: view.deferred.push(id), ..view },
            now,
        );
    }
}

// ---------------------------------------------------------------------------
// The steps

fn is_same_registration(a: &Option<ProjectRecord>, b: &Option<ProjectRecord>) -> (r: bool)
    ensures
        r == same_registration(option_view(*a), option_view(*b)),
{
    match (a, b) {
        (Some(a), Some(b)) => a.same(b),
        (None, None) => true,
        _ => false,
    }
}

fn does_stay(previous: &Option<ProjectRecord>, next: &Option<ProjectRecord>) -> (r: bool)
    ensures
        r == stays(option_view(*previous), option_view(*next)),
{
    match (previous, next) {
        (Some(a), Some(b)) => paths_equal(a.path.as_str(), b.path.as_str()),
        _ => false,
    }
}

fn does_end(previous: &Option<ProjectRecord>, next: &Option<ProjectRecord>) -> (r: bool)
    ensures
        r == ends(option_view(*previous), option_view(*next)),
{
    match (previous, next) {
        (Some(a), Some(b)) => !paths_equal(a.path.as_str(), b.path.as_str()) || (a.enabled && !b.enabled),
        (Some(_), None) => true,
        _ => false,
    }
}

fn does_move(previous: &Option<ProjectRecord>, next: &Option<ProjectRecord>) -> (r: bool)
    ensures
        r == moves(option_view(*previous), option_view(*next)),
{
    match (previous, next) {
        (Some(a), Some(b)) => !paths_equal(a.path.as_str(), b.path.as_str()) && b.enabled,
        _ => false,
    }
}

impl Server {
    fn renumber(&mut self, id: &str, previous: &Option<ProjectRecord>, next: &Option<ProjectRecord>)
        requires
            old(self)@.next_generation < u64::MAX,
        ensures
            final(self)@ == old(self)@.renumbered(id@, option_view(*previous), option_view(*next)),
    {
        if is_same_registration(previous, next) {
            return;
        }
        if next.is_some() {
            self.generations.insert(id.to_owned(), self.next_generation);
            self.next_generation = self.next_generation + 1;
        } else {
            let _ = self.generations.remove(id);
        }
    }

    fn move_cache(&mut self, id: &str, previous: &Option<ProjectRecord>, next: &Option<ProjectRecord>)
        ensures
            final(self)@ == old(self)@.cache_moved(id@, option_view(*previous), option_view(*next)),
    {
        let ghost before = self@;
        let ghost caches = self.caches@;
        let stay = does_stay(previous, next);
        let dropped = self.caches.remove(id);
        proof {
            cache_views_remove(caches, id@);
        }
        match next {
            Some(record) => {
                if stay {
                    match dropped {
                        Some(mut cache) => {
                            cache.update_record(record.clone());
                            proof {
                                cache_views_insert(caches.remove(id@), id@, cache);
                                assert(before.caches.remove(id@).insert(id@, cache@) =~= before.caches.insert(id@, cache@));
                            }
                            self.caches.insert(id.to_owned(), cache);
                        },
                        None => {
                            assert(before.caches.remove(id@) =~= before.caches);
                        },
                    }
                } else {
                    match dropped {
                        Some(cache) => {
                            self.retained_cache_bytes = self.retained_cache_bytes.saturating_sub(cache.retained_bytes());
                        },
                        None => {},
                    }
                    let fresh = ProjectCache::new(record.clone());
                    proof {
                        cache_views_insert(caches.remove(id@), id@, fresh);
                        assert(before.caches.remove(id@).insert(id@, fresh@) =~= before.caches.insert(id@, fresh@));
                    }
                    self.caches.insert(id.to_owned(), fresh);
                }
            },
            None => {
                match dropped {
                    Some(cache) => {
                        self.retained_cache_bytes = self.retained_cache_bytes.saturating_sub(cache.retained_bytes());
                    },
                    None => {},
                }
            },
        }
    }

    fn close_project(&mut self, id: &str, restart_gets: bool)
        ensures
            final(self)@ == old(self)@.project_closed(id@, restart_gets),
    {
        let remaining = without_text(&self.deferred, id);
        self.deferred = remaining;
        self.end_project_subscriptions(id, "project_removed", restart_gets);
        match self.find_active(id) {
            Some(at) => {
                assert(self@.active[at as int] == self.active@[at as int]@);
                let run = self.active[at].copied();
                self.push_effect(Effect::Cancel { run });
            },
            None => {},
        }
        self.dirty.remove(id);
    }

    fn change_registration(&mut self, id: &str, previous: &Option<ProjectRecord>, next: &Option<ProjectRecord>, watch_retried: bool) -> (again: bool)
        requires
            old(self)@.next_generation < u64::MAX,
        ensures
            (final(self)@, again) == old(self)@.registration_changed(
                id@,
                option_view(*previous),
                option_view(*next),
                watch_retried,
            ),
    {
        if is_same_registration(previous, next) && !watch_retried {
            return false;
        }
        self.renumber(id, previous, next);
        self.move_cache(id, previous, next);
        let mut again = false;
        if does_end(previous, next) {
            let restart_gets = does_move(previous, next);
            let was_deferred = self.is_deferred(id);
            self.close_project(id, restart_gets);
            again = restart_gets && was_deferred && self.has_waiters(id);
        }
        let enabled = match next {
            Some(next) => next.enabled,
            None => false,
        };
        let path = match (next, previous) {
            (Some(next), _) => next.path.clone(),
            (None, Some(previous)) => previous.path.clone(),
            (None, None) => String::new(),
        };
        assert(path@ == event_path(option_view(*previous), option_view(*next)));
        self.announce(id, path.as_str(), enabled);
        again
    }

    /// Takes over a new registry, after its watches were tried; `failed`
    /// names the projects that could not be watched.
    pub fn replace_registry(&mut self, projects: Vec<ProjectRecord>, failed: &Vec<String>, now: Duration)
        requires
            old(self)@.timely(now),
            old(self)@.next_generation + old(self)@.projects.len() + projects@.len() < u64::MAX,
        ensures
            final(self)@ == old(self)@.registry_replaced(views(projects@), views(failed@), now),
    {
        let ghost before = self@;
        let ghost old_records = views(self.projects@);
        let ghost new_records = views(projects@);
        let unwatch = find_unwatched(&self.projects, &projects);
        let pending = self.pending_of_remaining(&unwatch);
        let ghost pending_ids = views(pending@);
        let (left, again) = self.settle_watches(&projects, &pending, failed);
        self.pending_watches = left;
        let ids = self.registration_ids(&projects);
        let ghost all = views(ids@);
        let ghost start = self@;
        let mut restart: Vec<String> = Vec::new();
        let mut i: usize = 0;
        assert(all.take(0) =~= Seq::<Seq<char>>::empty());
        assert(views(restart@) =~= Seq::<Seq<char>>::empty());
        while i < ids.len()
            invariant
                i <= ids@.len(),
                all == views(ids@),
                all.len() <= old_records.len() + new_records.len(),
                new_records == views(projects@),
                self@.projects == old_records,
                self@.dirty.window == before.dirty.window,
                self@.next_generation <= before.next_generation + i,
                before.next_generation + old_records.len() + new_records.len() < u64::MAX,
                (self@, views(restart@)) == start.registrations_changed(
                    all.take(i as int),
                    old_records,
                    new_records,
                    views(again@),
                ),
            decreases ids@.len() - i,
        {
            proof {
                assert(all.take(i + 1).drop_last() =~= all.take(i as int));
                assert(all.take(i + 1).last() == ids@[i as int]@);
            }
            let previous = lookup(&self.projects, ids[i].as_str());
            let next = lookup(&projects, ids[i].as_str());
            let watch_retried = holds_text(&again, ids[i].as_str());
            proof {
                changing_keeps(self@, ids@[i as int]@, option_view(previous), option_view(next), watch_retried);
            }
            if self.change_registration(ids[i].as_str(), &previous, &next, watch_retried) {
                let id = ids[i].clone();
                proof {
                    views_push(restart@, id);
                }
                restart.push(id);
            }
            i += 1;
        }
        assert(all.take(i as int) =~= all);
        self.projects = projects;
        let ghost placed = self@;
        let ghost chosen = views(restart@);
        let mut j: usize = 0;
        assert(chosen.take(0) =~= Seq::<Seq<char>>::empty());
        while j < restart.len()
            invariant
                j <= restart@.len(),
                chosen == views(restart@),
                self@.timely(now),
                self@ == placed.all_started(chosen.take(j as int), now),
            decreases restart@.len() - j,
        {
            proof {
                assert(chosen.take(j + 1).drop_last() =~= chosen.take(j as int));
                assert(chosen.take(j + 1).last() == restart@[j as int]@);
                starting_keeps_window(self@, restart@[j as int]@, now);
            }
            self.start_snapshot(restart[j].as_str(), now);
            j += 1;
        }
        assert(chosen.take(j as int) =~= chosen);
        self.schedule_retry(now);
    }

    /// What is still to be watched, and what is watched at last.
    fn settle_watches(&self, projects: &Vec<ProjectRecord>, pending: &Vec<String>, failed: &Vec<String>) -> (r: (Vec<String>, Vec<String>))
        ensures
            views(r.0@) == pending_after(views(projects@), self@.projects, views(pending@), views(failed@)),
            views(r.1@) == retried(views(projects@), self@.projects, views(pending@), views(failed@)),
    {
        let ghost all = views(projects@);
        let mut left = crate::views::copied_texts(pending);
        let mut again: Vec<String> = Vec::new();
        let mut i: usize = 0;
        assert(all.take(0) =~= Seq::<RecordView>::empty());
        assert(views(again@) =~= Seq::<Seq<char>>::empty());
        while i < projects.len()
            invariant
                i <= projects@.len(),
                all == views(projects@),
                views(left@) == pending_after(all.take(i as int), self@.projects, views(pending@), views(failed@)),
                views(again@) == retried(all.take(i as int), self@.projects, views(pending@), views(failed@)),
            decreases projects@.len() - i,
        {
            proof {
                assert(all.take(i + 1).drop_last() =~= all.take(i as int));
                assert(all.take(i + 1).last() == projects@[i as int]@);
            }
            let id = projects[i].id.clone();
            if is_watch_wanted(&projects[i], &self.projects, pending) {
                if holds_text(failed, id.as_str()) {
                    if !holds_text(&left, id.as_str()) {
                        proof {
                            views_push(left@, id);
                        }
                        left.push(id);
                    }
                } else {
                    left = without_text(&left, id.as_str());
                    if holds_text(pending, id.as_str()) {
                        proof {
                            views_push(again@, id);
                        }
                        again.push(id);
                    }
                }
            } else if !projects[i].enabled {
                left = without_text(&left, id.as_str());
            }
            i += 1;
        }
        assert(all.take(i as int) =~= all);
        (left, again)
    }

    /// The ids of all projects, present and to come.
    fn registration_ids(&self, projects: &Vec<ProjectRecord>) -> (ids: Vec<String>)
        ensures
            views(ids@) == ids_of(self@.projects) + added_ids(views(projects@), self@.projects),
            ids@.len() <= self@.projects.len() + projects@.len(),
    {
        let mut ids: Vec<String> = Vec::new();
        let ghost present = views(self.projects@);
        let mut i: usize = 0;
        while i < self.projects.len()
            invariant
                i <= self.projects@.len(),
                present == views(self.projects@),
                ids@.len() == i,
                forall|k: int| 0 <= k < i ==> (#[trigger] ids@[k])@ == present[k].id,
            decreases self.projects@.len() - i,
        {
            ids.push(self.projects[i].id.clone());
            i += 1;
        }
        assert(views(ids@) =~= ids_of(present));
        let ghost all = views(projects@);
        let mut j: usize = 0;
        assert(all.take(0) =~= Seq::<RecordView>::empty());
        assert(ids_of(present) + added_ids(all.take(0), present) =~= ids_of(present));
        while j < projects.len()
            invariant
                j <= projects@.len(),
                all == views(projects@),
                present == self@.projects,
                views(ids@) == ids_of(present) + added_ids(all.take(j as int), present),
                ids@.len() <= present.len() + j,
            decreases projects@.len() - j,
        {
            proof {
                assert(all.take(j + 1).drop_last() =~= all.take(j as int));
                assert(all.take(j + 1).last() == projects@[j as int]@);
            }
            if lookup(&self.projects, projects[j].id.as_str()).is_none() {
                let id = projects[j].id.clone();
                proof {
                    views_push(ids@, id);
                    assert(ids_of(present) + added_ids(all.take(j + 1), present) =~= (ids_of(present) + added_ids(
                        all.take(j as int),
                        present,
                    )).push(id@));
                }
                ids.push(id);
            }
            j += 1;
        }
        assert(all.take(j as int) =~= all);
        ids
    }
}

} // verus!
