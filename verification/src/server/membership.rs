//! Who owns what: every subscription and every waiting request belongs to a
//! connection that is open, whatever happens.

use crate::envelope::{error_message, read_envelope, EnvelopeView, MethodView};
use crate::json::{json_field, JsonView};
use crate::project::{ProjectionView, RecordView, SnapshotView};
use crate::protocol::ConnectionId;
use crate::server::events::{announcing_only_sends, cancelling_only_asks, refusing_only_sends,
    telling_touches_clients_only, EventView};
use crate::server::model::{active_place, connection_place, record_with, same_run, subscription_id, subscription_place,
    subscriptions_beside, subscriptions_for, subscriptions_off, texts_except, waiters_beside, waiters_for, waiters_off,
    Connection, RunView, ServerView, SubscriptionView, WaitKindView, WaiterView};
use crate::server::registry_watch::{pending_after, pending_without, retried, unwatched, updated_payload};
use crate::server::replacement::{added_ids, broadcasting_only_sends, ending_only_sends, ends, event_enabled, event_path,
    ids_of, moves};
use crate::server::runs::{asking_starts_runs, deferred_runs_start_in_order, due_projects_start_runs, marking_keeps,
    path_changes_keep};
use crate::snapshot::FailureView;
use crate::time::Duration;
use vstd::prelude::*;

verus! {

/// No two connections share a number, none has one that is yet to be given
/// out, and every subscription and every waiting request belongs to one of
/// them.
pub open spec fn clients_sound(view: ServerView) -> bool {
    &&& forall|i: int, j: int| 0 <= i < j < view.connections.len() ==> (#[trigger] view.connections[i]).id != (#[trigger] view.connections[j]).id
    &&& forall|i: int| 0 <= i < view.connections.len() ==> (#[trigger] view.connections[i]).id < view.next_connection
    &&& forall|i: int| 0 <= i < view.subscriptions.len() ==> view.connected((#[trigger] view.subscriptions[i]).connection)
    &&& all_connected(view, view.waiters)
}

/// The owners of these requests are connected.
pub open spec fn all_connected(view: ServerView, waiters: Seq<WaiterView>) -> bool {
    forall|i: int| 0 <= i < waiters.len() ==> view.connected((#[trigger] waiters[i]).connection)
}

/// The clients, their subscriptions and their waiting requests are the same.
spec fn same_clients(a: ServerView, b: ServerView) -> bool {
    &&& a.connections == b.connections
    &&& a.subscriptions == b.subscriptions
    &&& a.waiters == b.waiters
    &&& a.next_connection == b.next_connection
}

/// A connection is found exactly if it is there.
pub proof fn connections_are_found(list: Seq<Connection>, id: ConnectionId)
    ensures
        -1 <= connection_place(list, id) < list.len(),
        connection_place(list, id) >= 0 ==> list[connection_place(list, id)].id == id,
        connection_place(list, id) < 0 ==> forall|i: int| 0 <= i < list.len() ==> (#[trigger] list[i]).id != id,
    decreases list.len(),
{
    if list.len() > 0 {
        connections_are_found(list.drop_last(), id);
        if connection_place(list, id) < 0 {
            assert forall|i: int| 0 <= i < list.len() implies (#[trigger] list[i]).id != id by {
                if i < list.len() - 1 {
                    assert(list.drop_last()[i] == list[i]);
                }
            }
        }
    }
}

/// What is left of the subscriptions is not of the connection.
pub proof fn subscriptions_off_are_others(list: Seq<SubscriptionView>, connection: ConnectionId)
    ensures
        forall|i: int|
            0 <= i < subscriptions_off(list, connection).len() ==> (#[trigger] subscriptions_off(list, connection)[i]).connection != connection
                && list.contains(subscriptions_off(list, connection)[i]),
    decreases list.len(),
{
    if list.len() > 0 {
        let shorter = list.drop_last();
        subscriptions_off_are_others(shorter, connection);
        let off = subscriptions_off(list, connection);
        assert forall|i: int| 0 <= i < off.len() implies (#[trigger] off[i]).connection != connection && list.contains(off[i]) by {
            let before = subscriptions_off(shorter, connection);
            if i < before.len() {
                assert(before[i] == off[i]);
                let k = choose|k: int| 0 <= k < shorter.len() && shorter[k] == off[i];
                assert(list[k] == off[i]);
            } else {
                assert(list[list.len() - 1] == off[i]);
            }
        }
    }
}

/// What is left of the waiting requests is not of the connection.
pub proof fn waiters_off_are_others(list: Seq<WaiterView>, connection: ConnectionId)
    ensures
        forall|i: int|
            0 <= i < waiters_off(list, connection).len() ==> (#[trigger] waiters_off(list, connection)[i]).connection != connection
                && list.contains(waiters_off(list, connection)[i]),
    decreases list.len(),
{
    if list.len() > 0 {
        let shorter = list.drop_last();
        waiters_off_are_others(shorter, connection);
        let off = waiters_off(list, connection);
        assert forall|i: int| 0 <= i < off.len() implies (#[trigger] off[i]).connection != connection && list.contains(off[i]) by {
            let before = waiters_off(shorter, connection);
            if i < before.len() {
                assert(before[i] == off[i]);
                let k = choose|k: int| 0 <= k < shorter.len() && shorter[k] == off[i];
                assert(list[k] == off[i]);
            } else {
                assert(list[list.len() - 1] == off[i]);
            }
        }
    }
}

/// What is left of the subscriptions is for other projects.
pub proof fn subscriptions_beside_are_others(list: Seq<SubscriptionView>, project: Seq<char>)
    ensures
        forall|i: int|
            0 <= i < subscriptions_beside(list, project).len() ==> (#[trigger] subscriptions_beside(list, project)[i]).project_id != project
                && list.contains(subscriptions_beside(list, project)[i]),
    decreases list.len(),
{
    if list.len() > 0 {
        let shorter = list.drop_last();
        subscriptions_beside_are_others(shorter, project);
        let rest = subscriptions_beside(list, project);
        assert forall|i: int| 0 <= i < rest.len() implies (#[trigger] rest[i]).project_id != project && list.contains(rest[i]) by {
            let before = subscriptions_beside(shorter, project);
            if i < before.len() {
                assert(before[i] == rest[i]);
                let k = choose|k: int| 0 <= k < shorter.len() && shorter[k] == rest[i];
                assert(list[k] == rest[i]);
            } else {
                assert(list[list.len() - 1] == rest[i]);
            }
        }
    }
}

/// The requests for a project, and the others, are parts of the whole.
pub proof fn waiters_are_parted(list: Seq<WaiterView>, project: Seq<char>)
    ensures
        forall|i: int|
            0 <= i < waiters_for(list, project).len() ==> (#[trigger] waiters_for(list, project)[i]).project_id == project
                && list.contains(waiters_for(list, project)[i]),
        forall|i: int|
            0 <= i < waiters_beside(list, project).len() ==> (#[trigger] waiters_beside(list, project)[i]).project_id != project
                && list.contains(waiters_beside(list, project)[i]),
    decreases list.len(),
{
    if list.len() > 0 {
        let shorter = list.drop_last();
        waiters_are_parted(shorter, project);
        let own = waiters_for(list, project);
        assert forall|i: int| 0 <= i < own.len() implies (#[trigger] own[i]).project_id == project && list.contains(own[i]) by {
            let before = waiters_for(shorter, project);
            if i < before.len() {
                assert(before[i] == own[i]);
                let k = choose|k: int| 0 <= k < shorter.len() && shorter[k] == own[i];
                assert(list[k] == own[i]);
            } else {
                assert(list[list.len() - 1] == own[i]);
            }
        }
        let rest = waiters_beside(list, project);
        assert forall|i: int| 0 <= i < rest.len() implies (#[trigger] rest[i]).project_id != project && list.contains(rest[i]) by {
            let before = waiters_beside(shorter, project);
            if i < before.len() {
                assert(before[i] == rest[i]);
                let k = choose|k: int| 0 <= k < shorter.len() && shorter[k] == rest[i];
                assert(list[k] == rest[i]);
            } else {
                assert(list[list.len() - 1] == rest[i]);
            }
        }
    }
}

// ---------------------------------------------------------------------------
// Connections

proof fn forgetting_keeps_clients_sound(view: ServerView, connection: ConnectionId)
    requires
        clients_sound(view),
        view.connected(connection),
    ensures
        clients_sound(view.without_connection(connection)),
        !view.without_connection(connection).connected(connection),
        forall|c: ConnectionId| c != connection ==> view.without_connection(connection).connected(c) == #[trigger] view.connected(c),
{
    let at = connection_place(view.connections, connection);
    connections_are_found(view.connections, connection);
    let after = view.without_connection(connection);
    let left = after.connections;
    assert forall|i: int| 0 <= i < left.len() implies (#[trigger] left[i]) == view.connections[if i < at { i } else { i + 1 }] by {}
    assert forall|i: int| 0 <= i < left.len() implies (#[trigger] left[i]).id != connection by {
        let k = if i < at { i } else { i + 1 };
        assert(left[i] == view.connections[k]);
        assert(view.connections[at].id == connection);
    }
    connections_are_found(left, connection);
    assert forall|c: ConnectionId| c != connection implies after.connected(c) == #[trigger] view.connected(c) by {
        connections_are_found(view.connections, c);
        connections_are_found(left, c);
        if view.connected(c) {
            let p = connection_place(view.connections, c);
            let k = if p < at { p } else { p - 1 };
            assert(left[k] == view.connections[p]);
        }
        if after.connected(c) {
            let p = connection_place(left, c);
            let k = if p < at { p } else { p + 1 };
            assert(left[p] == view.connections[k]);
        }
    }
    subscriptions_off_are_others(view.subscriptions, connection);
    waiters_off_are_others(view.waiters, connection);
    assert forall|i: int| 0 <= i < after.subscriptions.len() implies after.connected((#[trigger] after.subscriptions[i]).connection) by {
        let s = after.subscriptions[i];
        let k = choose|k: int| 0 <= k < view.subscriptions.len() && view.subscriptions[k] == s;
        assert(view.connected(view.subscriptions[k].connection));
    }
    assert forall|i: int| 0 <= i < after.waiters.len() implies after.connected((#[trigger] after.waiters[i]).connection) by {
        let w = after.waiters[i];
        let k = choose|k: int| 0 <= k < view.waiters.len() && view.waiters[k] == w;
        assert(view.connected(view.waiters[k].connection));
    }
}

/// After a connection was closed or dropped it is gone with everything that
/// belonged to it, and every other connection is as it was.
pub proof fn closing_leaves_nothing(view: ServerView, connection: ConnectionId)
    requires
        clients_sound(view),
    ensures
        ({
            let closed = view.closed(connection);
            let dropped = view.dropped(connection);
            &&& clients_sound(closed) && clients_sound(dropped)
            &&& !closed.connected(connection) && !dropped.connected(connection)
            &&& forall|i: int| 0 <= i < closed.subscriptions.len() ==> (#[trigger] closed.subscriptions[i]).connection != connection
            &&& forall|i: int| 0 <= i < closed.waiters.len() ==> (#[trigger] closed.waiters[i]).connection != connection
            &&& forall|i: int| 0 <= i < dropped.subscriptions.len() ==> (#[trigger] dropped.subscriptions[i]).connection != connection
            &&& forall|i: int| 0 <= i < dropped.waiters.len() ==> (#[trigger] dropped.waiters[i]).connection != connection
            &&& forall|c: ConnectionId| c != connection ==> closed.connected(c) == #[trigger] view.connected(c)
            &&& forall|c: ConnectionId| c != connection ==> dropped.connected(c) == #[trigger] view.connected(c)
        }),
{
    if view.connected(connection) {
        forgetting_keeps_clients_sound(view, connection);
        subscriptions_off_are_others(view.subscriptions, connection);
        waiters_off_are_others(view.waiters, connection);
    } else {
        assert forall|i: int| 0 <= i < view.subscriptions.len() implies (#[trigger] view.subscriptions[i]).connection != connection by {
            assert(view.connected(view.subscriptions[i].connection));
        }
        assert forall|i: int| 0 <= i < view.waiters.len() implies (#[trigger] view.waiters[i]).connection != connection by {
            assert(view.connected(view.waiters[i].connection));
        }
    }
}

proof fn admission_keeps_clients_sound(view: ServerView)
    requires
        clients_sound(view),
        view.has_ids(),
    ensures
        clients_sound(view.admitted()),
{
    let after = view.admitted();
    assert forall|c: ConnectionId| #[trigger] view.connected(c) implies after.connected(c) by {
        connections_are_found(view.connections, c);
        connections_are_found(after.connections, c);
        let p = connection_place(view.connections, c);
        assert(after.connections[p] == view.connections[p]);
    }
}

proof fn lost_writers_keep_clients_sound(view: ServerView, connection: ConnectionId)
    requires
        clients_sound(view),
    ensures
        clients_sound(view.writer_gone(connection)),
{
    let after = view.writer_gone(connection);
    connections_are_found(view.connections, connection);
    if view.connected(connection) {
        let at = connection_place(view.connections, connection);
        assert forall|i: int| 0 <= i < after.connections.len() implies (#[trigger] after.connections[i]).id == view.connections[i].id by {}
        assert forall|c: ConnectionId| #[trigger] view.connected(c) implies after.connected(c) by {
            connections_are_found(view.connections, c);
            connections_are_found(after.connections, c);
            let p = connection_place(view.connections, c);
            assert(after.connections[p].id == c);
        }
    }
}

// ---------------------------------------------------------------------------
// Subscriptions and waiting requests

proof fn unsubscribing_keeps_clients_sound(view: ServerView, id: Seq<char>)
    requires
        clients_sound(view),
    ensures
        clients_sound(view.without_subscription(id)),
        clients_sound(view.subscription_returned(id)),
{
    let at = subscription_place(view.subscriptions, id);
    crate::server::accounts::subscription_place_in_range(view.subscriptions, id);
    if at >= 0 {
        let after = view.without_subscription(id);
        assert forall|i: int| 0 <= i < after.subscriptions.len() implies after.connected((#[trigger] after.subscriptions[i]).connection) by {
            let k = if i < at { i } else { i + 1 };
            assert(after.subscriptions[i] == view.subscriptions[k]);
            assert(view.connected(view.subscriptions[k].connection));
        }
        let returned = view.subscription_returned(id);
        assert forall|i: int| 0 <= i < returned.subscriptions.len() implies returned.connected((#[trigger] returned.subscriptions[i]).connection) by {
            assert(view.connected(view.subscriptions[i].connection));
        }
    }
}

pub(crate) proof fn taking_waiters_keeps_clients_sound(view: ServerView, project: Seq<char>)
    requires
        clients_sound(view),
    ensures
        clients_sound(view.waiters_taken(project)),
        all_connected(view.waiters_taken(project), waiters_for(view.waiters, project)),
{
    let after = view.waiters_taken(project);
    waiters_are_parted(view.waiters, project);
    assert forall|i: int| 0 <= i < after.waiters.len() implies after.connected((#[trigger] after.waiters[i]).connection) by {
        let w = after.waiters[i];
        let k = choose|k: int| 0 <= k < view.waiters.len() && view.waiters[k] == w;
        assert(view.connected(view.waiters[k].connection));
    }
    let own = waiters_for(view.waiters, project);
    assert forall|i: int| 0 <= i < own.len() implies after.connected((#[trigger] own[i]).connection) by {
        let k = choose|k: int| 0 <= k < view.waiters.len() && view.waiters[k] == own[i];
        assert(view.connected(view.waiters[k].connection));
    }
}

pub(crate) proof fn answering_keeps_clients_sound(view: ServerView, list: Seq<WaiterView>, projection: Option<ProjectionView>, message: Seq<char>, too_large: bool)
    requires
        clients_sound(view),
    ensures
        clients_sound(view.waiters_answered_from(list, projection, message, too_large)),
    decreases list.len(),
{
    if list.len() > 0 {
        answering_keeps_clients_sound(view, list.drop_last(), projection, message, too_large);
        let before = view.waiters_answered_from(list.drop_last(), projection, message, too_large);
        let waiter = list.last();
        let c = waiter.connection;
        if before.connected(c) {
            match projection {
                Some(projection) => match waiter.kind {
                    WaitKindView::Get => {},
                    WaitKindView::Subscribe(subscription) => {
                        let frame = crate::envelope::result_message(
                            waiter.request_id,
                            crate::server::snapshots::subscription_result(subscription, projection),
                        );
                        let sent = before.ended(c, frame, crate::server::model::waiter_permit(), false).0;
                        assert(same_clients(sent, before));
                        unsubscribing_keeps_clients_sound(sent, subscription);
                    },
                },
                None => {
                    let unsubscribed = match waiter.kind {
                        WaitKindView::Get => before,
                        WaitKindView::Subscribe(subscription) => before.without_subscription(subscription),
                    };
                    match waiter.kind {
                        WaitKindView::Get => {},
                        WaitKindView::Subscribe(subscription) => {
                            unsubscribing_keeps_clients_sound(before, subscription);
                        },
                    }
                    if too_large {
                        closing_leaves_nothing(unsubscribed, c);
                    } else {
                        let frame = error_message(waiter.request_id, "unavailable"@, message);
                        let sent = unsubscribed.ended(c, frame, crate::server::model::waiter_permit(), true).0;
                        assert(same_clients(sent, unsubscribed));
                    }
                },
            }
        }
    }
}

proof fn displacing_keeps_clients_sound(view: ServerView, list: Seq<WaiterView>, restart_gets: bool)
    requires
        clients_sound(view),
        all_connected(view, list),
    ensures
        clients_sound(view.waiters_displaced(list, restart_gets)),
        view.waiters_displaced(list, restart_gets).connections == view.connections,
    decreases list.len(),
{
    if list.len() > 0 {
        assert forall|i: int| 0 <= i < list.drop_last().len() implies view.connected((#[trigger] list.drop_last()[i]).connection) by {
            assert(list[i] == list.drop_last()[i]);
        }
        displacing_keeps_clients_sound(view, list.drop_last(), restart_gets);
        let before = view.waiters_displaced(list.drop_last(), restart_gets);
        let after = view.waiters_displaced(list, restart_gets);
        assert(view.connected(list[list.len() - 1].connection));
        assert(after.connections == before.connections);
        assert(before.connected(list.last().connection));
        assert forall|i: int| 0 <= i < after.waiters.len() implies after.connected((#[trigger] after.waiters[i]).connection) by {
            if i < before.waiters.len() {
                assert(after.waiters[i] == before.waiters[i]);
                assert(before.connected(before.waiters[i].connection));
            }
        }
    }
}

proof fn ended_projects_keep_clients_sound(view: ServerView, project: Seq<char>, reason: Seq<char>, restart_gets: bool)
    requires
        clients_sound(view),
    ensures
        clients_sound(view.project_ended(project, reason, restart_gets)),
{
    let taken = ServerView { subscriptions: subscriptions_beside(view.subscriptions, project), ..view };
    let list = subscriptions_for(view.subscriptions, project);
    subscriptions_beside_are_others(view.subscriptions, project);
    assert forall|i: int| 0 <= i < taken.subscriptions.len() implies taken.connected((#[trigger] taken.subscriptions[i]).connection) by {
        let s = taken.subscriptions[i];
        let k = choose|k: int| 0 <= k < view.subscriptions.len() && view.subscriptions[k] == s;
        assert(view.connected(view.subscriptions[k].connection));
    }
    assert forall|i: int| 0 <= i < taken.waiters.len() implies taken.connected((#[trigger] taken.waiters[i]).connection) by {
        assert(view.connected(view.waiters[i].connection));
    }
    assert(clients_sound(taken));
    ending_only_sends(taken, list, reason);
    let told = taken.subscriptions_ended(list, reason);
    assert(same_clients(told, taken));
    taking_waiters_keeps_clients_sound(told, project);
    displacing_keeps_clients_sound(told.waiters_taken(project), waiters_for(told.waiters, project), restart_gets);
}

// ---------------------------------------------------------------------------
// Events

proof fn finishing_keeps_clients_sound(view: ServerView, run: RunView, result: Result<SnapshotView, FailureView>, now: Duration)
    requires
        clients_sound(view),
    ensures
        clients_sound(view.finished(run, result, now)),
{
    let id = run.record.id;
    let at = active_place(view.active, id);
    if at < 0 || !same_run(view.active[at], run) {
    } else {
        let idle = ServerView { active: view.active.remove(at), ..view };
        if !idle.is_current(run) {
            let rested = idle.with_dirty(idle.dirty.ended(id, now));
            assert(same_clients(rested, view));
            asking_starts_runs(rested, id, now);
            assert(same_clients(rested.started(id, now), view));
            taking_waiters_keeps_clients_sound(rested, id);
            answering_keeps_clients_sound(
                rested.waiters_taken(id),
                waiters_for(rested.waiters, id),
                rested.cached_projection(id),
                rested.failure_message(id),
                false,
            );
        } else {
            let outcome = idle.judged(run, result);
            let had_good = idle.cached_projection(id) is Some;
            let too_large = outcome matches Err(FailureView::OutputTooLarge(_));
            let cached = idle.cached(id, outcome);
            assert(same_clients(cached, view));
            taking_waiters_keeps_clients_sound(cached, id);
            answering_keeps_clients_sound(
                cached.waiters_taken(id),
                waiters_for(cached.waiters, id),
                cached.cached_projection(id),
                cached.failure_message(id),
                too_large,
            );
            let answered = cached.waiters_answered(id, too_large);
            telling_touches_clients_only(answered, id, outcome, had_good);
            assert(same_clients(answered.subscribers_told(id, outcome, had_good), answered));
        }
    }
}

proof fn cold_requests_keep_clients_sound(view: ServerView, waiter: WaiterView, now: Duration)
    requires
        clients_sound(view),
        view.connected(waiter.connection),
    ensures
        clients_sound(view.waiting(waiter, now)),
{
    if view.can_wait(waiter.project_id) {
        let waiting = view.with_waiter(waiter);
        assert forall|i: int| 0 <= i < waiting.waiters.len() implies waiting.connected((#[trigger] waiting.waiters[i]).connection) by {
            if i < view.waiters.len() {
                assert(view.connected(view.waiters[i].connection));
            }
        }
        assert(clients_sound(waiting));
        asking_starts_runs(waiting, waiter.project_id, now);
        assert(same_clients(waiting.started(waiter.project_id, now), waiting));
    } else {
        closing_leaves_nothing(view, waiter.connection);
    }
}

proof fn subscribing_keeps_clients_sound(view: ServerView, connection: ConnectionId, id: Seq<char>, params: JsonView, now: Duration)
    requires
        clients_sound(view),
    ensures
        clients_sound(view.subscribed(connection, id, params, now)),
{
    match view.selected(params) {
        Err(_) => {},
        Ok(project) => {
            let subscription = subscription_id(connection, view.next_subscription);
            let numbered = ServerView { next_subscription: (view.next_subscription + 1) as u64, ..view };
            assert(clients_sound(numbered));
            if !numbered.can_subscribe(connection) {
                closing_leaves_nothing(numbered, connection);
            } else {
                let entry = SubscriptionView { id: subscription, connection, project_id: project, returned: false };
                let registered = numbered.with_subscription(entry);
                assert forall|i: int| 0 <= i < registered.subscriptions.len() implies registered.connected(
                    (#[trigger] registered.subscriptions[i]).connection,
                ) by {
                    if i < view.subscriptions.len() {
                        assert(view.connected(view.subscriptions[i].connection));
                    }
                }
                assert forall|i: int| 0 <= i < registered.waiters.len() implies registered.connected(
                    (#[trigger] registered.waiters[i]).connection,
                ) by {
                    assert(view.connected(view.waiters[i].connection));
                }
                assert(clients_sound(registered));
                match registered.cached_projection(project) {
                    Some(projection) => {
                        let after = registered.result_sent(
                            connection,
                            id,
                            crate::server::snapshots::subscription_result(subscription, projection),
                        ).0;
                        assert(same_clients(after, registered));
                        unsubscribing_keeps_clients_sound(after, subscription);
                    },
                    None => {
                        cold_requests_keep_clients_sound(
                            registered,
                            WaiterView {
                                project_id: project,
                                connection,
                                request_id: id,
                                kind: WaitKindView::Subscribe(subscription),
                            },
                            now,
                        );
                    },
                }
            }
        },
    }
}

proof fn requests_keep_clients_sound(view: ServerView, connection: ConnectionId, parsed: Result<JsonView, Seq<char>>, now: Duration)
    requires
        clients_sound(view),
        view.connected(connection),
    ensures
        clients_sound(view.frame_handled(connection, parsed, now)),
{
    let request = match parsed {
        Ok(json) => read_envelope(json),
        Err(_) => None,
    };
    match request {
        Some(EnvelopeView::Request { version, id, method, params }) => {
            if version != crate::envelope::PROTOCOL_VERSION {
                let sent = view.error_sent(
                    connection,
                    id,
                    "unsupported_version"@,
                    "unsupported protocol major version"@,
                );
                assert(same_clients(sent, view));
                closing_leaves_nothing(sent, connection);
            } else {
                match method {
                    MethodView::ServerHello => {},
                    MethodView::ProjectList => {},
                    MethodView::SnapshotGet => match view.selected(params) {
                        Err(_) => {},
                        Ok(project) => {
                            cold_requests_keep_clients_sound(
                                view,
                                WaiterView { project_id: project, connection, request_id: id, kind: WaitKindView::Get },
                                now,
                            );
                        },
                    },
                    MethodView::SnapshotSubscribe => {
                        subscribing_keeps_clients_sound(view, connection, id, params, now);
                    },
                    MethodView::SnapshotUnsubscribe => match json_field(params, "subscriptionId"@) {
                        Some(JsonView::Text(subscription)) => {
                            unsubscribing_keeps_clients_sound(view, subscription);
                        },
                        _ => {},
                    },
                    MethodView::Unknown(_) => {},
                }
            }
        },
        _ => {},
    }
}

proof fn registration_keeps_clients_sound(view: ServerView, id: Seq<char>, previous: Option<RecordView>, next: Option<RecordView>, watch_retried: bool)
    requires
        clients_sound(view),
    ensures
        clients_sound(view.registration_changed(id, previous, next, watch_retried).0),
{
    let moved = view.renumbered(id, previous, next).cache_moved(id, previous, next);
    let emptied = ServerView { deferred: texts_except(moved.deferred, id), ..moved };
    assert(same_clients(emptied, view));
    ended_projects_keep_clients_sound(emptied, id, "project_removed"@, moves(previous, next));
    let closed = if ends(previous, next) {
        moved.project_closed(id, moves(previous, next))
    } else {
        moved
    };
    let ended = emptied.project_ended(id, "project_removed"@, moves(previous, next));
    assert(ends(previous, next) ==> same_clients(closed, ended));
    assert(clients_sound(closed));
    let payload = updated_payload(id, event_path(previous, next), event_enabled(next));
    broadcasting_only_sends(closed, closed.connections, "project.updated"@, payload);
    assert(same_clients(closed.broadcast("project.updated"@, payload), closed));
}

proof fn registrations_keep_clients_sound(view: ServerView, ids: Seq<Seq<char>>, old: Seq<RecordView>, new: Seq<RecordView>, watch_retried: Seq<Seq<char>>)
    requires
        clients_sound(view),
    ensures
        clients_sound(view.registrations_changed(ids, old, new, watch_retried).0),
    decreases ids.len(),
{
    if ids.len() > 0 {
        registrations_keep_clients_sound(view, ids.drop_last(), old, new, watch_retried);
        let before = view.registrations_changed(ids.drop_last(), old, new, watch_retried).0;
        let id = ids.last();
        registration_keeps_clients_sound(before, id, record_with(old, id), record_with(new, id), watch_retried.contains(id));
    }
}

proof fn restarts_keep_clients(view: ServerView, ids: Seq<Seq<char>>, now: Duration)
    ensures
        same_clients(view.all_started(ids, now), view),
    decreases ids.len(),
{
    if ids.len() > 0 {
        restarts_keep_clients(view, ids.drop_last(), now);
        asking_starts_runs(view.all_started(ids.drop_last(), now), ids.last(), now);
    }
}

proof fn drops_keep_clients_sound(view: ServerView, connections: Seq<ConnectionId>)
    requires
        clients_sound(view),
    ensures
        clients_sound(view.all_dropped(connections)),
    decreases connections.len(),
{
    if connections.len() > 0 {
        drops_keep_clients_sound(view, connections.drop_last());
        closing_leaves_nothing(view.all_dropped(connections.drop_last()), connections.last());
    }
}

/// Closing all connections leaves no client, no subscription and no waiting
/// request.
pub proof fn closing_all_leaves_nothing(view: ServerView)
    requires
        clients_sound(view),
    ensures
        clients_sound(view.all_closed()),
        view.all_closed().connections.len() == 0,
        view.all_closed().subscriptions.len() == 0,
        view.all_closed().waiters.len() == 0,
    decreases view.connections.len(),
{
    if view.connections.len() > 0 {
        let c = view.connections.last().id;
        closing_leaves_nothing(view, c);
        closing_all_leaves_nothing(view.closed(c));
    } else {
        if view.subscriptions.len() > 0 {
            assert(view.connected(view.subscriptions[0].connection));
            connections_are_found(view.connections, view.subscriptions[0].connection);
        }
        if view.waiters.len() > 0 {
            assert(view.connected(view.waiters[0].connection));
            connections_are_found(view.connections, view.waiters[0].connection);
        }
    }
}

/// A daemon that begins to stop has told everyone: nothing waits and nothing
/// is followed any more, and the connections are still there to be written
/// to.
pub proof fn stopping_ends_everything(view: ServerView)
    ensures
        view.stopping().waiters.len() == 0,
        view.stopping().subscriptions.len() == 0,
        view.stopping().connections == view.connections,
        view.stopping().next_connection == view.next_connection,
{
    cancelling_only_asks(view, view.active);
    let start = ServerView { waiters: Seq::empty(), ..view.all_cancelled(view.active) };
    let message = "snapshot unavailable because the daemon is shutting down"@;
    refusing_only_sends(start, view.waiters, message);
    let refused = start.waiters_refused(view.waiters, message);
    ending_only_sends(
        ServerView { subscriptions: Seq::empty(), ..refused },
        refused.subscriptions,
        "shutdown"@,
    );
}

/// Whatever happens, every subscription and every waiting request belongs to
/// a connection that is open, and no two connections share a number.
pub proof fn events_keep_clients_sound(view: ServerView, event: EventView, now: Duration)
    requires
        clients_sound(view),
        view.allows(event),
    ensures
        clients_sound(view.after(event, now)),
{
    match event {
        EventView::Admitted => {
            admission_keeps_clients_sound(view);
        },
        EventView::WriterGone(connection) => {
            lost_writers_keep_clients_sound(view, connection);
        },
        EventView::Frame(connection, parsed) => {
            requests_keep_clients_sound(view, connection, parsed, now);
        },
        EventView::Oversized(connection, request) => {
            let answered = match request {
                Some(id) => view.error_sent(connection, id, "frame_too_large"@, "frame exceeds maximum size"@),
                None => view,
            };
            assert(same_clients(answered, view));
            closing_leaves_nothing(answered, connection);
        },
        EventView::SnapshotDone(run, result) => {
            finishing_keeps_clients_sound(view, run, result, now);
            let idle = view.finished(run, result, now);
            deferred_runs_start_in_order(idle, now);
            assert(same_clients(idle.deferred_launched(now), idle));
        },
        EventView::Due => {
            due_projects_start_runs(view, now);
            assert(same_clients(view.due_started(now), view));
        },
        EventView::Changed(paths) => {
            path_changes_keep(view, paths, now);
            assert(same_clients(view.paths_changed(paths, now), view));
        },
        EventView::Missed => {
            marking_keeps(view, view.projects, now);
        },
        EventView::Registry(new, failed) => {
            let old = view.projects;
            let pending = pending_without(view.pending_watches, unwatched(old, new));
            let rewatched = ServerView { pending_watches: pending_after(new, old, pending, failed), ..view };
            let ids = ids_of(old) + added_ids(new, old);
            let again = retried(new, old, pending, failed);
            assert(same_clients(rewatched, view));
            registrations_keep_clients_sound(rewatched, ids, old, new, again);
            let (changed, restart) = rewatched.registrations_changed(ids, old, new, again);
            let placed = ServerView { projects: new, ..changed };
            restarts_keep_clients(placed, restart, now);
            assert(same_clients(view.after(event, now), changed));
        },
        EventView::Watched(installed) => {
            let settled = ServerView {
                pending_watches: pending_without(view.pending_watches, installed),
                ..view
            }.retry_scheduled(now);
            announcing_only_sends(settled, installed);
            assert(same_clients(view.after(event, now), view));
        },
        EventView::Gone(connections) => {
            drops_keep_clients_sound(view, connections);
        },
        EventView::Stopping => {
            stopping_ends_everything(view);
        },
        EventView::Drained(_) => {},
        EventView::Closing => {
            closing_all_leaves_nothing(view);
        },
    }
}

/// When a project has ended nobody follows it, and nobody waits for it but
/// plain requests if it lives on elsewhere.
pub proof fn ended_projects_are_not_followed(view: ServerView, project: Seq<char>, reason: Seq<char>, restart_gets: bool)
    ensures
        ({
            let after = view.project_ended(project, reason, restart_gets);
            &&& after.subscriptions == subscriptions_beside(view.subscriptions, project)
            &&& forall|i: int| 0 <= i < after.subscriptions.len() ==> (#[trigger] after.subscriptions[i]).project_id != project
            &&& !restart_gets ==> after.waiters == waiters_beside(view.waiters, project)
            &&& forall|i: int|
                0 <= i < after.waiters.len() && (#[trigger] after.waiters[i]).project_id == project ==> restart_gets
                    && after.waiters[i].kind is Get
        }),
{
    let taken = ServerView { subscriptions: subscriptions_beside(view.subscriptions, project), ..view };
    let list = subscriptions_for(view.subscriptions, project);
    subscriptions_beside_are_others(view.subscriptions, project);
    ending_only_sends(taken, list, reason);
    let told = taken.subscriptions_ended(list, reason);
    waiters_are_parted(view.waiters, project);
    displaced_gets_wait_on(told.waiters_taken(project), waiters_for(told.waiters, project), restart_gets, project);
}

proof fn displaced_gets_wait_on(view: ServerView, list: Seq<WaiterView>, restart_gets: bool, project: Seq<char>)
    requires
        forall|i: int| 0 <= i < view.waiters.len() ==> (#[trigger] view.waiters[i]).project_id != project,
    ensures
        ({
            let after = view.waiters_displaced(list, restart_gets);
            &&& after.subscriptions == view.subscriptions
            &&& !restart_gets ==> after.waiters == view.waiters
            &&& forall|i: int|
                0 <= i < after.waiters.len() && (#[trigger] after.waiters[i]).project_id == project ==> restart_gets
                    && after.waiters[i].kind is Get
        }),
    decreases list.len(),
{
    if list.len() > 0 {
        displaced_gets_wait_on(view, list.drop_last(), restart_gets, project);
        let before = view.waiters_displaced(list.drop_last(), restart_gets);
        let after = view.waiters_displaced(list, restart_gets);
        assert forall|i: int| 0 <= i < after.waiters.len() && (#[trigger] after.waiters[i]).project_id == project implies restart_gets && after.waiters[i].kind is Get by {
            if i < before.waiters.len() {
                assert(after.waiters[i] == before.waiters[i]);
            }
        }
    }
}

} // verus!
