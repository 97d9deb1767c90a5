//! Starting snapshots, a bounded number at a time, and what their ends mean
//! to the cache, to waiting requests and to subscribers.

use crate::envelope::{error_frame, error_message, event_frame, event_message, result_frame, result_message};
use crate::framing::serialize_bounded;
use crate::json::{json_bytes, Json, JsonNumber, JsonObject, JsonView};
use crate::limits::MAX_SERIALIZED_RESPONSE_ID_BYTES;
use crate::server::serving::{can_be_served, kept_snapshots_can_be_served};
use crate::project::{same_record, GraphProjection, ProjectRecord, ProjectionView, RecordView, Snapshot, SnapshotView};
use crate::project_json::projection_json;
use crate::protocol::{permit_released, ConnectionId};
use crate::server::client::waiter_place_permit;
use crate::server::model::{active_place, same_run, waiter_permit, waiters_beside, waiters_for, Effect, EffectView, RunView,
    ServerView, SnapshotRun, WaitKind, WaitKindView, Waiter, WaiterView};
use crate::server::{cache_views_insert, cache_views_remove, Server};
use crate::snapshot::{failure_code, failure_text, run_view, FailureView, SnapshotFailure};
use crate::state::{cache_failed, cache_replaced, projected, retained_projection_bytes, retained_size, stale_marks,
    stale_projection, DirtyView};
use crate::text::{decimal, decimal_text, joined, same_text};
use crate::time::{Duration, MAX_NANOS};
use crate::views::{option_view, views, views_push, views_remove};
use vstd::prelude::*;

verus! {

// ---------------------------------------------------------------------------
// Starting

/// The place of the first enabled record with that id, or -1.
pub open spec fn enabled_place(list: Seq<RecordView>, id: Seq<char>) -> int
    decreases list.len(),
{
    if list.len() == 0 {
        -1
    } else if enabled_place(list.drop_last(), id) >= 0 {
        enabled_place(list.drop_last(), id)
    } else if list.last().id == id && list.last().enabled {
        list.len() - 1
    } else {
        -1
    }
}

pub(crate) proof fn enabled_place_in_range(list: Seq<RecordView>, id: Seq<char>)
    ensures
        -1 <= enabled_place(list, id) < list.len(),
        enabled_place(list, id) >= 0 ==> list[enabled_place(list, id)].id == id && list[enabled_place(list, id)].enabled,
        enabled_place(list, id) < 0 ==> forall|i: int| 0 <= i < list.len() ==> !((#[trigger] list[i]).id == id && list[i].enabled),
    decreases list.len(),
{
    if list.len() > 0 {
        enabled_place_in_range(list.drop_last(), id);
        if enabled_place(list, id) < 0 {
            assert forall|i: int| 0 <= i < list.len() implies !((#[trigger] list[i]).id == id && list[i].enabled) by {
                if i < list.len() - 1 {
                    assert(list.drop_last()[i] == list[i]);
                }
            }
        }
    }
}

impl ServerView {
    pub open spec fn is_active(self, id: Seq<char>) -> bool {
        active_place(self.active, id) >= 0
    }

    /// The project that can be asked for a snapshot.
    pub open spec fn enabled_record(self, id: Seq<char>) -> Option<RecordView> {
        let at = enabled_place(self.projects, id);
        if at >= 0 {
            Some(self.projects[at])
        } else {
            None
        }
    }

    pub open spec fn with_dirty(self, dirty: DirtyView) -> ServerView {
        ServerView { dirty, ..self }
    }

    /// A project's command is started for its present registration.
    pub open spec fn launched(self, record: RecordView, now: Duration) -> ServerView {
        if self.generations.dom().contains(record.id) {
            let run = RunView { record, generation: self.generations[record.id] };
            ServerView { active: self.active.push(run), ..self }.with_effect(EffectView::Launch { run })
        } else {
            self.with_dirty(self.dirty.ended(record.id, now))
        }
    }

    /// Deferred snapshots are started, first come first served, until the
    /// limit of running commands is reached.
    pub open spec fn deferred_launched(self, now: Duration) -> ServerView
        decreases self.deferred.len(),
    {
        if self.active.len() >= self.limits.active_snapshots || self.deferred.len() == 0 {
            self
        } else {
            let id = self.deferred[0];
            let rest = ServerView { deferred: self.deferred.drop_first(), ..self };
            if rest.is_active(id) {
                rest.deferred_launched(now)
            } else {
                match rest.enabled_record(id) {
                    None => rest.with_dirty(rest.dirty.ended(id, now)).deferred_launched(now),
                    Some(record) => rest.launched(record, now).deferred_launched(now),
                }
            }
        }
    }

    /// A snapshot is wanted at once, unless one is under way.
    pub open spec fn started(self, id: Seq<char>, now: Duration) -> ServerView {
        if self.is_active(id) || self.deferred.contains(id) || self.dirty.running(id) {
            self
        } else {
            ServerView { dirty: self.dirty.started(id), deferred: self.deferred.push(id), ..self }.deferred_launched(now)
        }
    }

    /// Projects are queued unless they are running or queued.
    pub open spec fn queued_projects(self, ids: Seq<Seq<char>>) -> ServerView
        decreases ids.len(),
    {
        if ids.len() == 0 {
            self
        } else {
            let before = self.queued_projects(ids.drop_last());
            if before.is_active(ids.last()) || before.deferred.contains(ids.last()) {
                before
            } else {
                ServerView { deferred: before.deferred.push(ids.last()), ..before }
            }
        }
    }

    /// Every project whose quiet window has passed is snapshotted.
    pub open spec fn due_started(self, now: Duration) -> ServerView {
        self.with_dirty(self.dirty.started_due(now)).queued_projects(self.dirty.due_order(now)).deferred_launched(now)
    }

    /// The clock has not run out.
    pub open spec fn timely(self, now: Duration) -> bool {
        now.nanos + self.dirty.window.nanos + 500_000_000 <= MAX_NANOS
    }
}

impl Server {
    pub(crate) fn find_active(&self, id: &str) -> (at: Option<usize>)
        ensures
            at matches Some(i) ==> active_place(self@.active, id@) == i && i < self.active@.len(),
            at is None ==> active_place(self@.active, id@) == -1,
    {
        let ghost all = views(self.active@);
        let mut i: usize = self.active.len();
        assert(all.take(i as int) =~= all);
        while i > 0
            invariant
                i <= self.active@.len(),
                all == views(self.active@),
                active_place(all, id@) == active_place(all.take(i as int), id@),
            decreases i,
        {
            proof {
                assert(all.take(i as int).drop_last() =~= all.take(i - 1));
                assert(all.take(i as int).last() == self.active@[i - 1]@);
            }
            if same_text(self.active[i - 1].record.id.as_str(), id) {
                return Some(i - 1);
            }
            i -= 1;
        }
        None
    }

    pub(crate) fn is_deferred(&self, id: &str) -> (deferred: bool)
        ensures
            deferred == self@.deferred.contains(id@),
    {
        holds_text(&self.deferred, id)
    }

    pub(crate) fn find_enabled(&self, id: &str) -> (at: Option<usize>)
        ensures
            at matches Some(i) ==> enabled_place(self@.projects, id@) == i && i < self.projects@.len(),
            at is None ==> enabled_place(self@.projects, id@) == -1,
    {
        let ghost all = views(self.projects@);
        let mut i: usize = 0;
        assert(all.take(0) =~= Seq::<RecordView>::empty());
        while i < self.projects.len()
            invariant
                i <= self.projects@.len(),
                all == views(self.projects@),
                enabled_place(all.take(i as int), id@) == -1,
            decreases self.projects@.len() - i,
        {
            proof {
                assert(all.take(i + 1).drop_last() =~= all.take(i as int));
                assert(all.take(i + 1).last() == self.projects@[i as int]@);
            }
            if same_text(self.projects[i].id.as_str(), id) && self.projects[i].enabled {
                proof {
                    enabled_place_is_first(all, id@, i + 1);
                }
                return Some(i);
            }
            i += 1;
        }
        assert(all.take(i as int) =~= all);
        None
    }

    fn launch_snapshot(&mut self, record: ProjectRecord, now: Duration)
        requires
            old(self)@.timely(now),
        ensures
            final(self)@ == old(self)@.launched(record@, now),
    {
        let generation: u64 = match self.generations.get(record.id.as_str()) {
            Some(generation) => *generation,
            None => {
                self.dirty.finished(record.id.as_str(), now);
                return;
            },
        };
        let run = SnapshotRun { record, generation };
        let started = run.copied();
        proof {
            views_push(self.active@, started);
        }
        self.active.push(started);
        self.push_effect(Effect::Launch { run });
    }

    /// Starts what was deferred as far as the limit allows.
    pub fn launch_deferred_snapshots(&mut self, now: Duration)
        requires
            old(self)@.timely(now),
        ensures
            final(self)@ == old(self)@.deferred_launched(now),
    {
        let ghost before = self@;
        while self.active.len() < self.limits.active_snapshots && self.deferred.len() > 0
            invariant
                self@.timely(now),
                before.deferred_launched(now) == self@.deferred_launched(now),
            decreases self.deferred@.len(),
        {
            let ghost start = self@;
            proof {
                views_remove(self.deferred@, 0);
                assert(views(self.deferred@).remove(0) =~= views(self.deferred@).drop_first());
            }
            let id = self.deferred.remove(0);
            let ghost rest = self@;
            assert(rest == (ServerView { deferred: start.deferred.drop_first(), ..start }));
            if self.find_active(id.as_str()).is_none() {
                match self.find_enabled(id.as_str()) {
                    None => {
                        self.dirty.finished(id.as_str(), now);
                        assert(self@ == rest.with_dirty(rest.dirty.ended(id@, now)));
                    },
                    Some(at) => {
                        let record = self.projects[at].clone();
                        assert(record@ == rest.projects[at as int]);
                        self.launch_snapshot(record, now);
                    },
                }
            }
        }
    }

    /// Starts a snapshot at once, unless one is under way.
    pub fn start_snapshot(&mut self, id: &str, now: Duration)
        requires
            old(self)@.timely(now),
        ensures
            final(self)@ == old(self)@.started(id@, now),
    {
        if self.find_active(id).is_some() || self.is_deferred(id) {
            return;
        }
        let ghost before = self@;
        if !self.dirty.start_now(id) {
            return;
        }
        let queued = id.to_owned();
        proof {
            views_push(self.deferred@, queued);
        }
        self.deferred.push(queued);
        assert(self@ == (ServerView { dirty: before.dirty.started(id@), deferred: before.deferred.push(id@), ..before }));
        self.launch_deferred_snapshots(now);
    }

    /// Starts the snapshots of all projects that are due.
    pub fn run_due_snapshots(&mut self, now: Duration)
        requires
            old(self)@.timely(now),
        ensures
            final(self)@ == old(self)@.due_started(now),
    {
        let ghost before = self@;
        let ids = self.dirty.due(now);
        let ghost marked = self@;
        let ghost all = views(ids@);
        assert(marked == before.with_dirty(before.dirty.started_due(now)));
        let mut i: usize = 0;
        assert(all.take(0) =~= Seq::<Seq<char>>::empty());
        while i < ids.len()
            invariant
                i <= ids@.len(),
                all == views(ids@),
                self@ == marked.queued_projects(all.take(i as int)),
                self@.dirty == marked.dirty,
            decreases ids@.len() - i,
        {
            proof {
                assert(all.take(i + 1).drop_last() =~= all.take(i as int));
                assert(all.take(i + 1).last() == ids@[i as int]@);
            }
            if self.find_active(ids[i].as_str()).is_none() && !self.is_deferred(ids[i].as_str()) {
                let queued = ids[i].clone();
                proof {
                    views_push(self.deferred@, queued);
                }
                self.deferred.push(queued);
            }
            i += 1;
        }
        assert(all.take(i as int) =~= all);
        self.launch_deferred_snapshots(now);
    }
}

proof fn enabled_place_is_first(list: Seq<RecordView>, id: Seq<char>, i: int)
    requires
        0 < i <= list.len(),
        enabled_place(list.take(i), id) >= 0,
    ensures
        enabled_place(list, id) == enabled_place(list.take(i), id),
    decreases list.len(),
{
    if i == list.len() {
        assert(list.take(i) =~= list);
    } else {
        assert(list.drop_last().take(i) =~= list.take(i));
        enabled_place_is_first(list.drop_last(), id, i);
    }
}

/// Whether a text is among texts.
pub(crate) fn holds_text(list: &Vec<String>, text: &str) -> (found: bool)
    ensures
        found == views(list@).contains(text@),
{
    let mut i: usize = 0;
    while i < list.len()
        invariant
            i <= list@.len(),
            forall|j: int| 0 <= j < i ==> (#[trigger] list@[j])@ != text@,
        decreases list@.len() - i,
    {
        if same_text(list[i].as_str(), text) {
            assert(views(list@)[i as int] == text@);
            return true;
        }
        i += 1;
    }
    proof {
        if views(list@).contains(text@) {
            let k = choose|k: int| 0 <= k < views(list@).len() && views(list@)[k] == text@;
            assert(list@[k]@ == text@);
        }
    }
    false
}

// ---------------------------------------------------------------------------
// Sizes

/// The result of a subscription.
pub open spec fn subscription_result(id: Seq<char>, projection: ProjectionView) -> JsonView {
    JsonView::Object(
        Map::empty().insert("subscriptionId"@, JsonView::Text(id)).insert("snapshot"@, projection_json(projection)),
    )
}

/// What subscribers are told about a new snapshot.
pub open spec fn replaced_payload(project: Seq<char>, projection: ProjectionView) -> JsonView {
    JsonView::Object(
        Map::empty().insert("projectId"@, JsonView::Text(project)).insert("snapshot"@, projection_json(projection)),
    )
}

pub open spec fn code_json(code: Option<i32>) -> JsonView {
    match code {
        Some(number) => if number >= 0 {
            JsonView::Unsigned(number as u64)
        } else {
            JsonView::Negative(number as i64)
        },
        None => JsonView::Null,
    }
}

/// What subscribers are told about a failed snapshot.
pub open spec fn failed_payload(project: Seq<char>, message: Seq<char>, code: Option<i32>) -> JsonView {
    JsonView::Object(
        Map::empty()
            .insert("projectId"@, JsonView::Text(project))
            .insert("message"@, JsonView::Text(message))
            .insert("exitCode"@, code_json(code)),
    )
}

/// The longest id that a subscription can have.
pub open spec fn longest_subscription_id() -> Seq<char> {
    "s-"@ + decimal_text(usize::MAX as nat) + "-"@ + decimal_text(u64::MAX as nat)
}

/// The room for everything in a response but the client's own id.
pub open spec fn response_room(limit: usize) -> int {
    if limit >= MAX_SERIALIZED_RESPONSE_ID_BYTES {
        limit - MAX_SERIALIZED_RESPONSE_ID_BYTES
    } else {
        limit as int
    }
}

/// A snapshot can be kept only if every frame that may ever carry it, even
/// marked as stale, is within the limit.
pub open spec fn can_be_kept(record: RecordView, snapshot: SnapshotView, limit: usize) -> bool {
    let projection = projected(record, snapshot, stale_marks());
    &&& json_bytes(result_message(""@, projection_json(projection))).len() <= response_room(limit)
    &&& json_bytes(result_message(""@, subscription_result(longest_subscription_id(), projection))).len() <= response_room(limit)
    &&& json_bytes(event_message("snapshot.replaced"@, replaced_payload(record.id, projection))).len() <= limit
}

pub(crate) fn subscription_result_json(id: &str, projection: &GraphProjection) -> (json: Json)
    ensures
        json@ == subscription_result(id@, projection@),
{
    JsonObject::new().with("subscriptionId", Json::text(id)).with("snapshot", projection.to_json()).done()
}

fn replaced_payload_json(project: &str, projection: &GraphProjection) -> (json: Json)
    ensures
        json@ == replaced_payload(project@, projection@),
{
    JsonObject::new().with("projectId", Json::text(project)).with("snapshot", projection.to_json()).done()
}

fn failed_payload_json(project: &str, message: &str, code: Option<i32>) -> (json: Json)
    ensures
        json@ == failed_payload(project@, message@, code),
{
    let exit = match code {
        Some(number) => if number >= 0 {
            Json::Number(JsonNumber::Unsigned(number as u64))
        } else {
            Json::Number(JsonNumber::Negative(number as i64))
        },
        None => Json::Null,
    };
    JsonObject::new()
        .with("projectId", Json::text(project))
        .with("message", Json::text(message))
        .with("exitCode", exit)
        .done()
}

/// Whether every frame that may ever carry a snapshot is within the limit. It
/// then is so whatever the client calls its request.
pub fn retained_snapshot_fits(record: &ProjectRecord, snapshot: &Snapshot, limit: usize) -> (fits: bool)
    ensures
        fits == can_be_kept(record@, snapshot@, limit),
        fits && limit >= MAX_SERIALIZED_RESPONSE_ID_BYTES ==> can_be_served(record@, snapshot@, limit),
{
    let projection = stale_projection(record, snapshot);
    let room: usize = if limit >= MAX_SERIALIZED_RESPONSE_ID_BYTES {
        limit - MAX_SERIALIZED_RESPONSE_ID_BYTES
    } else {
        limit
    };
    let got = result_frame("", projection.to_json());
    let got_bytes = serialize_bounded(&got, room);
    if got_bytes.is_none() {
        return false;
    }
    let mut longest = joined("s-", decimal(usize::MAX as u64).as_str());
    longest.append("-");
    longest.append(decimal(u64::MAX).as_str());
    let subscribed = result_frame("", subscription_result_json(longest.as_str(), &projection));
    let subscribed_bytes = serialize_bounded(&subscribed, room);
    if subscribed_bytes.is_none() {
        return false;
    }
    let replaced = event_frame("snapshot.replaced", replaced_payload_json(record.id.as_str(), &projection));
    let replaced_bytes = serialize_bounded(&replaced, limit);
    proof {
        if replaced_bytes is Some && limit >= MAX_SERIALIZED_RESPONSE_ID_BYTES {
            kept_snapshots_can_be_served(
                record@,
                snapshot@,
                limit,
                got_bytes->0@,
                subscribed_bytes->0@,
                replaced_bytes->0@,
            );
        }
    }
    replaced_bytes.is_some()
}

// ---------------------------------------------------------------------------
// Answering waiting requests

impl ServerView {
    /// One waiting request is answered: with the snapshot if there is one, and
    /// otherwise with why there is none; a snapshot that is too large to send
    /// costs the connection.
    pub open spec fn waiter_answered(self, waiter: WaiterView, projection: Option<ProjectionView>, message: Seq<char>, too_large: bool) -> ServerView {
        let c = waiter.connection;
        let id = waiter.request_id;
        if !self.connected(c) {
            self.with_ledger(permit_released(self.ledger, waiter_permit()))
        } else {
            match projection {
                Some(projection) => match waiter.kind {
                    WaitKindView::Get => self.ended(c, result_message(id, projection_json(projection)), waiter_permit(), false).0,
                    WaitKindView::Subscribe(subscription) => {
                        let (after, sent) = self.ended(
                            c,
                            result_message(id, subscription_result(subscription, projection)),
                            waiter_permit(),
                            false,
                        );
                        if sent {
                            after.subscription_returned(subscription)
                        } else {
                            after.without_subscription(subscription)
                        }
                    },
                },
                None => {
                    let unsubscribed = match waiter.kind {
                        WaitKindView::Get => self,
                        WaitKindView::Subscribe(subscription) => self.without_subscription(subscription),
                    };
                    if too_large {
                        let closed = unsubscribed.closed(c);
                        closed.with_ledger(permit_released(closed.ledger, waiter_permit()))
                    } else {
                        unsubscribed.ended(c, error_message(id, "unavailable"@, message), waiter_permit(), true).0
                    }
                },
            }
        }
    }

    pub open spec fn waiters_answered_from(self, list: Seq<WaiterView>, projection: Option<ProjectionView>, message: Seq<char>, too_large: bool) -> ServerView
        decreases list.len(),
    {
        if list.len() == 0 {
            self
        } else {
            self.waiters_answered_from(list.drop_last(), projection, message, too_large).waiter_answered(
                list.last(),
                projection,
                message,
                too_large,
            )
        }
    }

    pub open spec fn cached_projection(self, id: Seq<char>) -> Option<ProjectionView> {
        if self.caches.dom().contains(id) {
            self.caches[id].projection
        } else {
            None
        }
    }

    /// Why a project has no snapshot.
    pub open spec fn failure_message(self, id: Seq<char>) -> Seq<char> {
        if self.caches.dom().contains(id) && self.caches[id].last_error is Some {
            (self.caches[id].last_error->0).message
        } else {
            "snapshot unavailable"@
        }
    }

    /// Nobody waits for the project any longer.
    pub open spec fn waiters_taken(self, id: Seq<char>) -> ServerView {
        ServerView { waiters: waiters_beside(self.waiters, id), ..self }
    }

    /// Everyone who waits for the project is answered, in order.
    pub open spec fn waiters_answered(self, id: Seq<char>, too_large: bool) -> ServerView {
        self.waiters_taken(id).waiters_answered_from(
            waiters_for(self.waiters, id),
            self.cached_projection(id),
            self.failure_message(id),
            too_large,
        )
    }
}

impl Server {
    /// Takes the requests that wait for a project.
    pub(crate) fn take_waiters(&mut self, project: &str) -> (taken: Vec<Waiter>)
        ensures
            views(taken@) == waiters_for(old(self)@.waiters, project@),
            final(self)@ == old(self)@.waiters_taken(project@),
    {
        let ghost all = views(self.waiters@);
        let mut source: Vec<Waiter> = Vec::new();
        std::mem::swap(&mut source, &mut self.waiters);
        let ghost start = source@;
        let mut kept: Vec<Waiter> = Vec::new();
        let mut taken: Vec<Waiter> = Vec::new();
        assert(views(kept@) =~= Seq::<WaiterView>::empty());
        assert(views(taken@) =~= Seq::<WaiterView>::empty());
        assert(all.take(0) =~= Seq::<WaiterView>::empty());
        for waiter in it: source
            invariant
                it.seq() == start,
                all == views(start),
                0 <= it.index() <= all.len(),
                views(kept@) == waiters_beside(all.take(it.index() as int), project@),
                views(taken@) == waiters_for(all.take(it.index() as int), project@),
        {
            let ghost i = it.index() as int;
            proof {
                assert(all.take(i + 1).drop_last() =~= all.take(i));
                assert(all.take(i + 1).last() == waiter@);
            }
            if same_text(waiter.project_id.as_str(), project) {
                proof {
                    views_push(taken@, waiter);
                }
                taken.push(waiter);
            } else {
                proof {
                    views_push(kept@, waiter);
                }
                kept.push(waiter);
            }
        }
        assert(all.take(all.len() as int) =~= all);
        self.waiters = kept;
        taken
    }

    fn answer_waiter(&mut self, waiter: &Waiter, projection: &Option<GraphProjection>, message: &str, too_large: bool)
        ensures
            final(self)@ == old(self)@.waiter_answered(waiter@, option_view(*projection), message@, too_large),
    {
        let connection = waiter.connection;
        if !self.is_connected(connection) {
            waiter_place_permit().release(&mut self.ledger);
            return;
        }
        match projection {
            Some(projection) => match &waiter.kind {
                WaitKind::Get => {
                    let frame = result_frame(waiter.request_id.as_str(), projection.to_json());
                    let _ = self.send_terminal_frame(connection, &frame, waiter_place_permit(), false);
                },
                WaitKind::Subscribe(subscription) => {
                    let frame = result_frame(
                        waiter.request_id.as_str(),
                        subscription_result_json(subscription.as_str(), projection),
                    );
                    if self.send_terminal_frame(connection, &frame, waiter_place_permit(), false) {
                        self.mark_subscription_returned(subscription.as_str());
                    } else {
                        self.remove_subscription(subscription.as_str());
                    }
                },
            },
            None => {
                match &waiter.kind {
                    WaitKind::Get => {},
                    WaitKind::Subscribe(subscription) => {
                        self.remove_subscription(subscription.as_str());
                    },
                }
                if too_large {
                    self.close_connection(connection);
                    waiter_place_permit().release(&mut self.ledger);
                } else {
                    let frame = error_frame(waiter.request_id.as_str(), "unavailable", message);
                    let _ = self.send_terminal_frame(connection, &frame, waiter_place_permit(), true);
                }
            },
        }
    }

    fn copied_projection(&self, id: &str) -> (projection: Option<GraphProjection>)
        ensures
            option_view(projection) == self@.cached_projection(id@),
    {
        match self.caches.get(id) {
            Some(cache) => match cache.projection() {
                Some(projection) => Some(projection.clone()),
                None => None,
            },
            None => None,
        }
    }

    /// Answers everyone who waits for a project.
    pub(crate) fn answer_waiters(&mut self, project: &str, too_large: bool)
        ensures
            final(self)@ == old(self)@.waiters_answered(project@, too_large),
    {
        let ghost before = self@;
        let projection = self.copied_projection(project);
        let message = match self.caches.get(project) {
            Some(cache) => match cache.last_error() {
                Some(failure) => failure.message.clone(),
                None => "snapshot unavailable".to_owned(),
            },
            None => "snapshot unavailable".to_owned(),
        };
        assert(message@ == before.failure_message(project@));
        let list = self.take_waiters(project);
        let ghost start = self@;
        let ghost all = views(list@);
        let mut i: usize = 0;
        assert(all.take(0) =~= Seq::<WaiterView>::empty());
        while i < list.len()
            invariant
                i <= list@.len(),
                all == views(list@),
                self@ == start.waiters_answered_from(all.take(i as int), option_view(projection), message@, too_large),
            decreases list@.len() - i,
        {
            proof {
                assert(all.take(i + 1).drop_last() =~= all.take(i as int));
                assert(all.take(i + 1).last() == list@[i as int]@);
            }
            self.answer_waiter(&list[i], &projection, message.as_str(), too_large);
            i += 1;
        }
        assert(all.take(i as int) =~= all);
    }
}

// ---------------------------------------------------------------------------
// The end of a run

/// A snapshot that is kept, with its size and the size of all caches with it.
pub struct Kept {
    pub snapshot: Snapshot,
    pub retained_bytes: usize,
    pub total_bytes: usize,
}

pub struct KeptView {
    pub snapshot: SnapshotView,
    pub retained_bytes: usize,
    pub total_bytes: usize,
}

impl View for Kept {
    type V = KeptView;

    open spec fn view(&self) -> KeptView {
        KeptView { snapshot: self.snapshot@, retained_bytes: self.retained_bytes, total_bytes: self.total_bytes }
    }
}

pub open spec fn kept_view(result: Result<Kept, SnapshotFailure>) -> Result<KeptView, FailureView> {
    match result {
        Ok(kept) => Ok(kept@),
        Err(failure) => Err(failure@),
    }
}

pub open spec fn too_large_text(limit: usize) -> Seq<char> {
    "retained snapshot exceeds "@ + decimal_text(limit as nat) + " bytes"@
}

pub open spec fn cache_full_text(limit: usize) -> Seq<char> {
    "aggregate retained cache exceeds "@ + decimal_text(limit as nat) + " bytes"@
}

impl ServerView {
    /// The run is for the project as it is registered now.
    pub open spec fn is_current(self, run: RunView) -> bool {
        &&& self.generations.dom().contains(run.record.id)
        &&& self.generations[run.record.id] == run.generation
        &&& exists|i: int| 0 <= i < self.projects.len() && (#[trigger] self.projects[i]).enabled && same_record(self.projects[i], run.record)
    }

    pub open spec fn retained_limit(self) -> usize {
        if self.limits.snapshot_bytes <= self.limits.frame_bytes {
            self.limits.snapshot_bytes
        } else {
            self.limits.frame_bytes
        }
    }

    pub open spec fn old_retained(self, id: Seq<char>) -> usize {
        if self.caches.dom().contains(id) {
            self.caches[id].retained_bytes
        } else {
            0
        }
    }

    /// A good snapshot is kept only if it can be sent and all caches stay
    /// within their bound with it.
    pub open spec fn judged(self, run: RunView, result: Result<SnapshotView, FailureView>) -> Result<KeptView, FailureView> {
        match result {
            Err(failure) => Err(failure),
            Ok(snapshot) => {
                let limit = self.retained_limit();
                let size = retained_size(run.record, snapshot);
                let old = self.old_retained(run.record.id);
                if !can_be_kept(run.record, snapshot, limit) {
                    Err(FailureView::OutputTooLarge(too_large_text(limit)))
                } else if self.retained_cache_bytes < old || self.retained_cache_bytes - old + size > self.limits.cache_bytes {
                    Err(FailureView::CacheFull(cache_full_text(self.limits.cache_bytes)))
                } else {
                    Ok(
                        KeptView {
                            snapshot,
                            retained_bytes: size as usize,
                            total_bytes: (self.retained_cache_bytes - old + size) as usize,
                        },
                    )
                }
            },
        }
    }

    /// The end of this run brings a snapshot that is kept.
    pub open spec fn keeps(self, run: RunView, result: Result<SnapshotView, FailureView>) -> bool {
        let at = active_place(self.active, run.record.id);
        let idle = ServerView { active: self.active.remove(at), ..self };
        at >= 0 && same_run(self.active[at], run) && idle.is_current(run) && idle.judged(run, result) is Ok
    }

    /// The caches after a judged run.
    pub open spec fn cached(self, id: Seq<char>, outcome: Result<KeptView, FailureView>) -> ServerView {
        let counted = match outcome {
            Ok(kept) => ServerView { retained_cache_bytes: kept.total_bytes, ..self },
            Err(_) => self,
        };
        if self.caches.dom().contains(id) {
            let cache = self.caches[id];
            let after = match outcome {
                Ok(kept) => cache_replaced(cache, kept.snapshot, kept.retained_bytes),
                Err(failure) => cache_failed(cache, failure_text(failure), failure_code(failure)),
            };
            ServerView { caches: self.caches.insert(id, after), ..counted }
        } else {
            counted
        }
    }

    /// Subscribers are told, if they had a snapshot before.
    pub open spec fn subscribers_told(self, id: Seq<char>, outcome: Result<KeptView, FailureView>, had_good: bool) -> ServerView {
        if !had_good {
            self
        } else {
            match outcome {
                Ok(_) => match self.cached_projection(id) {
                    Some(projection) => self.project_event_sent(id, "snapshot.replaced"@, replaced_payload(id, projection)),
                    None => self,
                },
                Err(failure) => self.project_event_sent(
                    id,
                    "snapshot.failed"@,
                    failed_payload(id, failure_text(failure), failure_code(failure)),
                ),
            }
        }
    }

    /// A run has ended. One that nobody expects any more changes nothing; one
    /// for an earlier registration only makes room for the next; any other is
    /// judged, cached and told to those who wait and those who follow.
    pub open spec fn finished(self, run: RunView, result: Result<SnapshotView, FailureView>, now: Duration) -> ServerView {
        let id = run.record.id;
        let at = active_place(self.active, id);
        if at < 0 || !same_run(self.active[at], run) {
            self
        } else {
            let idle = ServerView { active: self.active.remove(at), ..self };
            if !idle.is_current(run) {
                let rested = idle.with_dirty(idle.dirty.ended(id, now));
                if waiters_for(rested.waiters, id).len() > 0 && rested.enabled_record(id) is Some {
                    rested.started(id, now)
                } else {
                    rested.waiters_answered(id, false)
                }
            } else {
                let outcome = idle.judged(run, result);
                let had_good = idle.cached_projection(id) is Some;
                let too_large = outcome matches Err(FailureView::OutputTooLarge(_));
                let told = idle.cached(id, outcome).waiters_answered(id, too_large).subscribers_told(id, outcome, had_good);
                told.with_dirty(told.dirty.ended(id, now))
            }
        }
    }
}

impl Server {
    fn is_current(&self, run: &SnapshotRun) -> (current: bool)
        ensures
            current == self@.is_current(run@),
    {
        let matches_generation = match self.generations.get(run.record.id.as_str()) {
            Some(generation) => *generation == run.generation,
            None => false,
        };
        if !matches_generation {
            return false;
        }
        let mut i: usize = 0;
        while i < self.projects.len()
            invariant
                i <= self.projects@.len(),
                self@.generations.dom().contains(run@.record.id),
                self@.generations[run@.record.id] == run@.generation,
                forall|j: int| 0 <= j < i ==> !((#[trigger] self@.projects[j]).enabled && same_record(self@.projects[j], run@.record)),
            decreases self.projects@.len() - i,
        {
            assert(self@.projects[i as int] == self.projects@[i as int]@);
            if self.projects[i].enabled && self.projects[i].same(&run.record) {
                return true;
            }
            i += 1;
        }
        false
    }

    fn judge(&self, run: &SnapshotRun, result: Result<Snapshot, SnapshotFailure>) -> (outcome: Result<Kept, SnapshotFailure>)
        ensures
            kept_view(outcome) == self@.judged(run@, run_view(result)),
            outcome is Ok && self@.retained_limit() >= MAX_SERIALIZED_RESPONSE_ID_BYTES ==> can_be_served(
                run@.record,
                run_view(result)->Ok_0,
                self@.retained_limit(),
            ),
    {
        let snapshot = match result {
            Ok(snapshot) => snapshot,
            Err(failure) => {
                return Err(failure);
            },
        };
        let limit: usize = if self.limits.snapshot_bytes <= self.limits.frame_bytes {
            self.limits.snapshot_bytes
        } else {
            self.limits.frame_bytes
        };
        if !retained_snapshot_fits(&run.record, &snapshot, limit) {
            let mut message = joined("retained snapshot exceeds ", decimal(limit as u64).as_str());
            message.append(" bytes");
            return Err(SnapshotFailure::OutputTooLarge(message));
        }
        let retained_bytes = retained_projection_bytes(&run.record, &snapshot);
        let old: usize = match self.caches.get(run.record.id.as_str()) {
            Some(cache) => cache.retained_bytes(),
            None => 0,
        };
        let total: Option<usize> = if self.retained_cache_bytes < old {
            None
        } else {
            match (self.retained_cache_bytes - old).checked_add(retained_bytes) {
                Some(total) => if total <= self.limits.cache_bytes {
                    Some(total)
                } else {
                    None
                },
                None => None,
            }
        };
        match total {
            Some(total_bytes) => Ok(Kept { snapshot, retained_bytes, total_bytes }),
            None => {
                let mut message = joined("aggregate retained cache exceeds ", decimal(self.limits.cache_bytes as u64).as_str());
                message.append(" bytes");
                Err(SnapshotFailure::CacheFull(message))
            },
        }
    }

    fn update_cache(&mut self, id: &str, outcome: &Result<Kept, SnapshotFailure>)
        ensures
            final(self)@ == old(self)@.cached(id@, kept_view(*outcome)),
    {
        let ghost before = self@;
        match outcome {
            Ok(kept) => {
                self.retained_cache_bytes = kept.total_bytes;
            },
            Err(_) => {},
        }
        let ghost caches = self.caches@;
        match self.caches.remove(id) {
            Some(mut cache) => {
                match outcome {
                    Ok(kept) => {
                        cache.replace_accounted(kept.snapshot.clone(), kept.retained_bytes);
                    },
                    Err(failure) => {
                        cache.fail(failure.message(), failure.exit_code());
                    },
                }
                proof {
                    cache_views_remove(caches, id@);
                    cache_views_insert(caches.remove(id@), id@, cache);
                    assert(before.caches.remove(id@).insert(id@, cache@) =~= before.caches.insert(id@, cache@));
                }
                self.caches.insert(id.to_owned(), cache);
            },
            None => {
                proof {
                    assert(caches.remove(id@) =~= caches);
                }
            },
        }
    }

    fn tell_subscribers(&mut self, id: &str, outcome: &Result<Kept, SnapshotFailure>, had_good: bool)
        ensures
            final(self)@ == old(self)@.subscribers_told(id@, kept_view(*outcome), had_good),
    {
        if !had_good {
            return;
        }
        match outcome {
            Ok(_) => match self.copied_projection(id) {
                Some(projection) => {
                    let payload = replaced_payload_json(id, &projection);
                    self.send_project_event(id, "snapshot.replaced", &payload);
                },
                None => {},
            },
            Err(failure) => {
                let payload = failed_payload_json(id, failure.message().as_str(), failure.exit_code());
                self.send_project_event(id, "snapshot.failed", &payload);
            },
        }
    }

    /// Takes note of the end of a run.
    pub fn finish_snapshot(&mut self, run: SnapshotRun, result: Result<Snapshot, SnapshotFailure>, now: Duration)
        requires
            old(self)@.timely(now),
        ensures
            final(self)@ == old(self)@.finished(run@, run_view(result), now),
            old(self)@.keeps(run@, run_view(result)) && old(self)@.retained_limit() >= MAX_SERIALIZED_RESPONSE_ID_BYTES
                ==> can_be_served(run@.record, run_view(result)->Ok_0, old(self)@.retained_limit()),
    {
        let ghost before = self@;
        let id = run.record.id.clone();
        let at: usize = match self.find_active(id.as_str()) {
            Some(at) => at,
            None => {
                return;
            },
        };
        if !self.active[at].same(&run) {
            return;
        }
        proof {
            views_remove(self.active@, at as int);
        }
        self.active.remove(at);
        let ghost idle = self@;
        assert(idle == (ServerView { active: before.active.remove(at as int), ..before }));
        if !self.is_current(&run) {
            self.dirty.finished(id.as_str(), now);
            let ghost rested = self@;
            assert(rested == idle.with_dirty(idle.dirty.ended(id@, now)));
            if self.has_waiters(id.as_str()) && self.find_enabled(id.as_str()).is_some() {
                self.start_snapshot(id.as_str(), now);
            } else {
                self.answer_waiters(id.as_str(), false);
            }
            return;
        }
        let outcome = self.judge(&run, result);
        let had_good = match self.caches.get(id.as_str()) {
            Some(cache) => cache.projection().is_some(),
            None => false,
        };
        assert(had_good == (idle.cached_projection(id@) is Some));
        let too_large = match &outcome {
            Err(SnapshotFailure::OutputTooLarge(_)) => true,
            _ => false,
        };
        self.update_cache(id.as_str(), &outcome);
        self.answer_waiters(id.as_str(), too_large);
        self.tell_subscribers(id.as_str(), &outcome, had_good);
        proof {
            window_is_kept(idle, id@, kept_view(outcome), too_large, had_good);
        }
        self.dirty.finished(id.as_str(), now);
    }

    pub(crate) fn has_waiters(&self, project: &str) -> (waiting: bool)
        ensures
            waiting == (waiters_for(self@.waiters, project@).len() > 0),
    {
        let ghost all = views(self.waiters@);
        let mut i: usize = 0;
        assert(all.take(0) =~= Seq::<WaiterView>::empty());
        while i < self.waiters.len()
            invariant
                i <= self.waiters@.len(),
                all == views(self.waiters@),
                waiters_for(all.take(i as int), project@).len() == 0,
            decreases self.waiters@.len() - i,
        {
            proof {
                assert(all.take(i + 1).drop_last() =~= all.take(i as int));
                assert(all.take(i + 1).last() == self.waiters@[i as int]@);
            }
            if same_text(self.waiters[i].project_id.as_str(), project) {
                proof {
                    waiters_for_grows(all, project@, i + 1);
                }
                return true;
            }
            i += 1;
        }
        assert(all.take(i as int) =~= all);
        false
    }
}

proof fn waiters_for_grows(list: Seq<WaiterView>, project: Seq<char>, i: int)
    requires
        0 <= i <= list.len(),
    ensures
        waiters_for(list.take(i), project).len() <= waiters_for(list, project).len(),
    decreases list.len(),
{
    if i == list.len() {
        assert(list.take(i) =~= list);
    } else {
        assert(list.drop_last().take(i) =~= list.take(i));
        waiters_for_grows(list.drop_last(), project, i);
    }
}

pub(crate) proof fn answering_keeps_dirty(view: ServerView, list: Seq<WaiterView>, projection: Option<ProjectionView>, message: Seq<char>, too_large: bool)
    ensures
        view.waiters_answered_from(list, projection, message, too_large).dirty == view.dirty,
    decreases list.len(),
{
    if list.len() > 0 {
        answering_keeps_dirty(view, list.drop_last(), projection, message, too_large);
    }
}

proof fn events_keep_dirty(view: ServerView, connections: Seq<ConnectionId>, name: Seq<char>, payload: JsonView)
    ensures
        view.event_sent_to(connections, name, payload).dirty == view.dirty,
    decreases connections.len(),
{
    if connections.len() > 0 {
        events_keep_dirty(view, connections.drop_last(), name, payload);
    }
}

pub(crate) proof fn window_is_kept(view: ServerView, id: Seq<char>, outcome: Result<KeptView, FailureView>, too_large: bool, had_good: bool)
    ensures
        view.cached(id, outcome).waiters_answered(id, too_large).subscribers_told(id, outcome, had_good).dirty == view.dirty,
{
    let cached = view.cached(id, outcome);
    let answered = cached.waiters_answered(id, too_large);
    answering_keeps_dirty(
        cached.waiters_taken(id),
        waiters_for(cached.waiters, id),
        cached.cached_projection(id),
        cached.failure_message(id),
        too_large,
    );
    let list = crate::server::model::subscribers(answered.subscriptions, id);
    match outcome {
        Ok(_) => match answered.cached_projection(id) {
            Some(projection) => {
                events_keep_dirty(answered, list, "snapshot.replaced"@, replaced_payload(id, projection));
            },
            None => {},
        },
        Err(failure) => {
            events_keep_dirty(
                answered,
                list,
                "snapshot.failed"@,
                failed_payload(id, failure_text(failure), failure_code(failure)),
            );
        },
    }
}

} // verus!
