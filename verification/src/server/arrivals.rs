//! The daemon at its start, and what becomes of connections.

use crate::limits::Limits;
use crate::project::{RecordView, SnapshotView};
use crate::protocol::{ConnectionId, CounterName};
use crate::server::announcements::numbers_differ;
use crate::server::attendance::{can_run, ids_distinct, launching_keeps_underway, queueing_puts_underway, underway};
use crate::server::lists::{runs_are_found, subscriptions_off_is_a_part, waiters_off_is_a_part};
use crate::server::membership::connections_are_found;
use crate::server::model::{active_place, connection_place, Connection, EffectView, RunView, ServerView, SubscriptionView,
    WaiterView};
use crate::server::replies::{is_there, only_replies, was_refused};
use crate::server::rescans::is_wanted;
use crate::server::runs::{deferred_runs_start_in_order, queueing_keeps};
use crate::server::snapshots::{enabled_place, enabled_place_in_range};
use crate::server::turn::{first_caches, first_generations, new_server, MessageView};
use crate::snapshot::FailureView;
use crate::state::{due_projects_can_be_listed, DirtyState};
use crate::time::Duration;
use vstd::prelude::*;

verus! {

// ---------------------------------------------------------------------------
// The start

proof fn first_numbers(projects: Seq<RecordView>, i: int)
    requires
        ids_distinct(projects),
        projects.len() < u64::MAX,
        0 <= i < projects.len(),
    ensures
        first_generations(projects).dom().contains(projects[i].id),
        first_generations(projects)[projects[i].id] == i + 1,
        first_caches(projects).dom().contains(projects[i].id),
        first_caches(projects)[projects[i].id].record == projects[i],
        first_caches(projects)[projects[i].id].projection is None,
        first_caches(projects)[projects[i].id].last_error is None,
        first_caches(projects)[projects[i].id].retained_bytes == 0,
    decreases projects.len(),
{
    let shorter = projects.drop_last();
    if i < shorter.len() {
        assert(ids_distinct(shorter)) by {
            assert forall|a: int, b: int| 0 <= a < b < shorter.len() implies (#[trigger] shorter[a]).id != (#[trigger] shorter[b]).id by {
                assert(projects[a].id != projects[b].id);
            }
        }
        first_numbers(shorter, i);
        assert(shorter[i] == projects[i]);
        assert(projects[i].id != projects[projects.len() - 1].id);
    }
}

/// A new daemon knows its registry: every project has a cache that is empty and
/// a number of its own, and no number is used twice. Nothing runs, nobody is
/// connected, nothing is in use, and the registry is looked at after half a
/// second.
pub proof fn a_new_daemon_knows_its_registry(limits: Limits, version: Seq<char>, registry: Seq<char>, projects: Seq<RecordView>, window: Duration, i: int)
    requires
        ids_distinct(projects),
        projects.len() < u64::MAX,
        0 <= i < projects.len(),
    ensures
        ({
            let view = new_server(limits, version, registry, projects, window);
            let id = projects[i].id;
            &&& view.projects == projects
            &&& view.limits == limits
            &&& view.server_version == version
            &&& view.registry == registry
            &&& view.dirty.window == window
            &&& view.generations.dom().contains(id) && view.generations[id] == i + 1 && view.generations[id] < view.next_generation
            &&& view.caches.dom().contains(id) && view.caches[id].record == projects[i] && view.caches[id].projection is None
                && view.caches[id].last_error is None
            &&& view.connections.len() == 0 && view.subscriptions.len() == 0 && view.waiters.len() == 0
            &&& view.active.len() == 0 && view.deferred.len() == 0 && view.pending_watches.len() == 0
            &&& view.retained_cache_bytes == 0
            &&& view.registry_due is None && view.watch_retry_due is None
            &&& view.registry_poll_due.nanos == 500_000_000
            &&& view.effects.len() == 0
            &&& forall|name: CounterName| #[trigger] view.ledger[name] == 0
            &&& forall|other: Seq<char>| !#[trigger] view.dirty.projects.dom().contains(other)
        }),
{
    first_numbers(projects, i);
}

// ---------------------------------------------------------------------------
// Connections

/// A client is let in exactly if fewer are connected than may be, under a
/// number that no client had before, and can be written to.
pub proof fn clients_are_let_in_up_to_the_limit(view: ServerView)
    requires
        view.has_ids(),
    ensures
        view.has_room_for_connection() <==> view.connections.len() < view.limits.connections,
        view.admitted().connections.len() == view.connections.len() + 1,
        view.admitted().connections.drop_last() == view.connections,
        view.admitted().connections.last() == (Connection { id: view.next_connection, writer_open: true }),
        view.admitted().next_connection == view.next_connection + 1,
        view.admitted() == (ServerView {
            connections: view.admitted().connections,
            next_connection: view.admitted().next_connection,
            ..view
        }),
{
    assert(view.admitted().connections.drop_last() =~= view.connections);
}

/// When the writer of a connection stops, that connection stays where it is
/// and takes no more frames; no other is touched.
pub proof fn stopped_writers_take_nothing(view: ServerView, connection: ConnectionId, i: int)
    requires
        numbers_differ(view.connections),
        0 <= i < view.connections.len(),
    ensures
        ({
            let after = view.writer_gone(connection);
            &&& after == (ServerView { connections: after.connections, ..view })
            &&& after.connections.len() == view.connections.len()
            &&& after.connections[i].id == view.connections[i].id
            &&& view.connections[i].id == connection ==> !after.connections[i].writer_open
            &&& view.connections[i].id != connection ==> after.connections[i] == view.connections[i]
        }),
{
    connections_are_found(view.connections, connection);
    let at = connection_place(view.connections, connection);
    if view.connections[i].id == connection {
        if i < at {
            assert(view.connections[i].id != view.connections[at].id);
        } else if at < i {
            assert(view.connections[at].id != view.connections[i].id);
        }
    }
}

/// A connection that is closed or dropped takes its subscriptions and its
/// waiting requests with it, and nobody else's; closing lets what is owed be
/// written first, dropping does not.
pub proof fn connections_take_their_own_with_them(view: ServerView, connection: ConnectionId)
    requires
        numbers_differ(view.connections),
        is_there(view, connection),
    ensures
        ({
            let closed = view.closed(connection);
            let dropped = view.dropped(connection);
            &&& !is_there(closed, connection)
            &&& forall|other: ConnectionId| other != connection ==> #[trigger] is_there(closed, other) == is_there(view, other)
            &&& closed.connections.len() == view.connections.len() - 1
            &&& closed.subscriptions == view.subscriptions.filter(|s: SubscriptionView| s.connection != connection)
            &&& closed.waiters == view.waiters.filter(|w: WaiterView| w.connection != connection)
            &&& exists|owed: bool| closed.effects == view.effects.push(#[trigger] closing_effect(connection, owed)) && owed == (
            closed.ledger[CounterName::RequiredDeliveries(connection)] > 0)
            &&& dropped.connections == closed.connections
            &&& dropped.subscriptions == closed.subscriptions
            &&& dropped.waiters == closed.waiters
            &&& dropped.ledger == closed.ledger
            &&& dropped.effects == view.effects.push(EffectView::Drop { connection })
        }),
        view.closed(connection) == (ServerView {
            connections: view.closed(connection).connections,
            subscriptions: view.closed(connection).subscriptions,
            waiters: view.closed(connection).waiters,
            ledger: view.closed(connection).ledger,
            effects: view.closed(connection).effects,
            ..view
        }),
{
    connections_are_found(view.connections, connection);
    let at = connection_place(view.connections, connection);
    let k = choose|k: int| 0 <= k < view.connections.len() && (#[trigger] view.connections[k]).id == connection;
    assert(at >= 0);
    let closed = view.closed(connection);
    let rest = view.connections.remove(at);
    assert(closed.connections == rest);
    subscriptions_off_is_a_part(view.subscriptions, connection);
    waiters_off_is_a_part(view.waiters, connection);
    assert forall|i: int| 0 <= i < rest.len() implies (#[trigger] rest[i]).id != connection by {
        if i < at {
            assert(rest[i] == view.connections[i]);
            assert(view.connections[i].id != view.connections[at].id);
        } else {
            assert(rest[i] == view.connections[i + 1]);
            assert(view.connections[at].id != view.connections[i + 1].id);
        }
    }
    assert forall|other: ConnectionId| other != connection implies #[trigger] is_there(closed, other) == is_there(view, other) by {
        if is_there(view, other) {
            let m = choose|m: int| 0 <= m < view.connections.len() && (#[trigger] view.connections[m]).id == other;
            assert(rest[if m < at { m } else { m - 1 }] == view.connections[m]);
        }
        if is_there(closed, other) {
            let m = choose|m: int| 0 <= m < rest.len() && (#[trigger] rest[m]).id == other;
            assert(view.connections[if m < at { m } else { m + 1 }] == rest[m]);
        }
    }
    let owed = closed.ledger[CounterName::RequiredDeliveries(connection)] > 0;
    assert(closed.effects == view.effects.push(closing_effect(connection, owed)));
}

pub open spec fn closing_effect(connection: ConnectionId, await_delivery: bool) -> EffectView {
    EffectView::Close { connection, await_delivery }
}

/// A connection that is not there cannot be closed or dropped.
pub proof fn absent_connections_cannot_be_closed(view: ServerView, connection: ConnectionId)
    requires
        !is_there(view, connection),
    ensures
        view.closed(connection) == view,
        view.dropped(connection) == view,
        view.writer_gone(connection) == view,
{
    connections_are_found(view.connections, connection);
    let at = connection_place(view.connections, connection);
    if at >= 0 {
        assert(view.connections[at].id == connection);
    }
}

/// A client that sends more than a frame may hold is told so, under the id of
/// its request if that is known, and is closed.
pub proof fn oversized_frames_cost_the_connection(view: ServerView, connection: ConnectionId, id: Seq<char>)
    requires
        numbers_differ(view.connections),
        is_there(view, connection),
    ensures
        view.oversized(connection, None) == view.closed(connection),
        exists|told: ServerView| {
            &&& was_refused(view, told, connection, id, "frame_too_large"@, "frame exceeds maximum size"@)
            &&& only_replies(view, told)
            &&& view.oversized(connection, Some(id)) == #[trigger] told.closed(connection)
        },
{
    crate::server::replies::refusals_are_sent(view, connection, id, "frame_too_large"@, "frame exceeds maximum size"@);
    let told = view.error_sent(connection, id, "frame_too_large"@, "frame exceeds maximum size"@);
    assert(view.oversized(connection, Some(id)) == told.closed(connection));
}

/// Every one of the connections that are gone is dropped.
pub proof fn all_that_are_gone_are_dropped(view: ServerView, connections: Seq<ConnectionId>, connection: ConnectionId)
    requires
        numbers_differ(view.connections),
    ensures
        ({
            let after = view.all_dropped(connections);
            &&& numbers_differ(after.connections)
            &&& is_there(after, connection) <==> is_there(view, connection) && !connections.contains(connection)
        }),
    decreases connections.len(),
{
    if connections.len() > 0 {
        let shorter = connections.drop_last();
        let last = connections.last();
        let before = view.all_dropped(shorter);
        let after = view.all_dropped(connections);
        all_that_are_gone_are_dropped(view, shorter, connection);
        if is_there(before, last) {
            connections_take_their_own_with_them(before, last);
            assert(after.connections == before.closed(last).connections);
            connections_are_found(before.connections, last);
            let at = connection_place(before.connections, last);
            assert(after.connections == before.connections.remove(at));
            assert forall|i: int, j: int| 0 <= i < j < after.connections.len() implies (#[trigger] after.connections[i]).id
                != (#[trigger] after.connections[j]).id by {
                let a = if i < at { i } else { i + 1 };
                let b = if j < at { j } else { j + 1 };
                assert(after.connections[i] == before.connections[a]);
                assert(after.connections[j] == before.connections[b]);
                assert(before.connections[a].id != before.connections[b].id);
            }
            assert(is_there(after, connection) == is_there(before.closed(last), connection));
        } else {
            absent_connections_cannot_be_closed(before, last);
        }
        if connections.contains(connection) && connection != last {
            let k = choose|k: int| 0 <= k < connections.len() && connections[k] == connection;
            assert(shorter[k] == connection);
        }
        if shorter.contains(connection) {
            let k = choose|k: int| 0 <= k < shorter.len() && shorter[k] == connection;
            assert(connections[k] == connection);
        }
        assert(connections[connections.len() - 1] == last);
    }
}

// ---------------------------------------------------------------------------
// Starting what is due

/// A project whose quiet window has passed is snapshotted if it is registered
/// and enabled: its command runs, or waits for a place.
pub proof fn due_projects_are_snapshotted(view: ServerView, id: Seq<char>, now: Duration, at: int)
    requires
        view.dirty.projects.dom().finite(),
        view.dirty.projects.dom().contains(id),
        view.dirty.projects[id] matches DirtyState::Debouncing(deadline) && deadline.nanos <= now.nanos,
        0 <= at < view.projects.len(),
        view.projects[at].id == id,
        view.projects[at].enabled,
        view.generations.dom().contains(id),
    ensures
        is_wanted(view.due_started(now), id),
{
    enabled_place_in_range(view.projects, id);
    due_projects_can_be_listed(view.dirty, now);
    let order = view.dirty.due_order(now);
    assert(view.dirty.is_due(id, now));
    assert(order.contains(id));
    let marked = view.with_dirty(view.dirty.started_due(now));
    queueing_keeps(marked, order);
    queueing_puts_underway(marked, order);
    let queued = marked.queued_projects(order);
    assert(view.projects[at].id == id && view.projects[at].enabled);
    assert(can_run(queued, id));
    assert(underway(queued, id));
    launching_keeps_underway(queued, id, now);
    let after = view.due_started(now);
    runs_are_found(after.active, id);
    if active_place(after.active, id) >= 0 {
        assert(after.active[active_place(after.active, id)].record.id == id);
    }
}

/// A command that is started is started for the project as it is registered
/// now, with the number of its registration.
pub proof fn commands_are_started_for_the_present_registration(view: ServerView, record: RecordView, now: Duration)
    requires
        view.generations.dom().contains(record.id),
    ensures
        ({
            let run = RunView { record, generation: view.generations[record.id] };
            let after = view.launched(record, now);
            &&& after.active == view.active.push(run)
            &&& after.effects == view.effects.push(EffectView::Launch { run })
            &&& after == (ServerView { active: after.active, effects: after.effects, ..view })
        }),
{
}

/// A project is not started while its command runs, waits for a place or is
/// marked as running.
pub proof fn nothing_is_started_twice(view: ServerView, id: Seq<char>, now: Duration, k: int)
    ensures
        0 <= k < view.active.len() && view.active[k].record.id == id ==> view.started(id, now) == view,
        0 <= k < view.deferred.len() && view.deferred[k] == id ==> view.started(id, now) == view,
        view.dirty.projects.dom().contains(id) && view.dirty.projects[id] is Running ==> view.started(id, now) == view,
{
    runs_are_found(view.active, id);
}

/// Where all places are taken no command is started.
pub proof fn no_command_is_started_without_a_place(view: ServerView, now: Duration)
    requires
        view.active.len() >= view.limits.active_snapshots,
    ensures
        view.deferred_launched(now) == view,
{
}

/// Commands are started in the order in which they were asked for: the first
/// place is for the project that has waited longest.
pub proof fn commands_wait_their_turn(view: ServerView, now: Duration, at: int)
    requires
        view.active.len() < view.limits.active_snapshots,
        view.deferred.len() > 0,
        forall|i: int| 0 <= i < view.active.len() ==> (#[trigger] view.active[i]).record.id != view.deferred[0],
        0 <= at < view.projects.len(),
        view.projects[at].id == view.deferred[0],
        view.projects[at].enabled,
        forall|i: int| 0 <= i < at ==> (#[trigger] view.projects[i]).id != view.deferred[0],
        view.generations.dom().contains(view.deferred[0]),
    ensures
        ({
            let after = view.deferred_launched(now);
            &&& after.active.len() > view.active.len()
            &&& after.active[view.active.len() as int].record == view.projects[at]
            &&& after.active[view.active.len() as int].generation == view.generations[view.deferred[0]]
        }),
{
    let id = view.deferred[0];
    runs_are_found(view.active, id);
    let rest = ServerView { deferred: view.deferred.drop_first(), ..view };
    assert(!rest.is_active(id));
    the_first_is_found(view.projects, id, at);
    let launched = rest.launched(view.projects[at], now);
    deferred_runs_start_in_order(launched, now);
    let after = launched.deferred_launched(now);
    assert(after.active.take(launched.active.len() as int)[view.active.len() as int] == after.active[view.active.len() as int]);
}

proof fn the_first_is_found(list: Seq<RecordView>, id: Seq<char>, at: int)
    requires
        0 <= at < list.len(),
        list[at].id == id,
        list[at].enabled,
        forall|i: int| 0 <= i < at ==> (#[trigger] list[i]).id != id,
    ensures
        enabled_place(list, id) == at,
    decreases list.len(),
{
    let shorter = list.drop_last();
    if at < shorter.len() {
        assert forall|i: int| 0 <= i < at implies (#[trigger] shorter[i]).id != id by {
            assert(list[i].id != id);
        }
        the_first_is_found(shorter, id, at);
    } else {
        enabled_place_in_range(shorter, id);
        if enabled_place(shorter, id) >= 0 {
            assert(list[enabled_place(shorter, id)].id != id);
        }
    }
}

/// When a command has ended, the next ones start: nobody waits while there is
/// a place.
pub proof fn ended_commands_make_room(view: ServerView, run: RunView, result: Result<SnapshotView, FailureView>, now: Duration)
    ensures
        ({
            let after = view.message_handled(MessageView::SnapshotDone { run, result }, now);
            after.deferred.len() == 0 || after.active.len() >= after.limits.active_snapshots
        }),
{
    deferred_runs_start_in_order(view.finished(run, result, now), now);
}

/// What arrives from a connection that is gone is not looked at.
pub proof fn late_requests_change_nothing(view: ServerView, connection: ConnectionId, frame: Seq<u8>, now: Duration)
    requires
        !is_there(view, connection),
    ensures
        view.message_handled(MessageView::Request { connection, frame }, now) == view,
{
    connections_are_found(view.connections, connection);
    let at = connection_place(view.connections, connection);
    if at >= 0 {
        assert(view.connections[at].id == connection);
    }
}

// ---------------------------------------------------------------------------
// The end

/// A cancelled command that has ended leaves the list of those that run, and
/// that is all.
pub proof fn drained_commands_leave_the_list(view: ServerView, k: int)
    requires
        0 <= k < view.active.len(),
        forall|i: int| 0 <= i < view.active.len() && i != k ==> (#[trigger] view.active[i]).record.id != view.active[k].record.id,
    ensures
        view.run_drained(view.active[k]) == (ServerView { active: view.active.remove(k), ..view }),
{
    runs_are_found(view.active, view.active[k].record.id);
    let at = active_place(view.active, view.active[k].record.id);
    assert(view.active[k].record.id == view.active[k].record.id);
    assert(at == k);
}

/// At the very end every connection is closed.
pub proof fn everyone_is_closed_at_the_end(view: ServerView, k: int)
    requires
        numbers_differ(view.connections),
        0 <= k < view.connections.len(),
    ensures
        ({
            let after = view.all_closed();
            &&& after.connections.len() == 0
            &&& view.effects.len() <= after.effects.len()
            &&& after.effects.take(view.effects.len() as int) == view.effects
            &&& exists|i: int|
                view.effects.len() <= i < after.effects.len() && (#[trigger] after.effects[i] matches EffectView::Close { connection, .. }
                    && connection == view.connections[k].id)
        }),
    decreases view.connections.len(),
{
    let last = view.connections.last().id;
    let n = view.connections.len();
    assert(view.connections[n - 1].id == last);
    assert(is_there(view, last));
    connections_take_their_own_with_them(view, last);
    let step = view.closed(last);
    connections_are_found(view.connections, last);
    let at = connection_place(view.connections, last);
    assert(at == n - 1);
    assert(step.connections =~= view.connections.drop_last());
    assert(numbers_differ(step.connections)) by {
        assert forall|i: int, j: int| 0 <= i < j < step.connections.len() implies (#[trigger] step.connections[i]).id
            != (#[trigger] step.connections[j]).id by {
            assert(view.connections[i].id != view.connections[j].id);
        }
    }
    let after = view.all_closed();
    assert(after == step.all_closed());
    let owed = choose|owed: bool| step.effects == view.effects.push(#[trigger] closing_effect(last, owed));
    assert(step.effects.last() == closing_effect(last, owed));
    if n > 1 {
        everyone_is_closed_at_the_end(step, if k < n - 1 { k } else { 0 });
        assert(after.effects.take(view.effects.len() as int) =~= after.effects.take(step.effects.len() as int).take(
            view.effects.len() as int,
        ));
        assert(after.effects.take(step.effects.len() as int)[view.effects.len() as int] == after.effects[view.effects.len() as int]);
        if k < n - 1 {
            assert(step.connections[k] == view.connections[k]);
        }
    } else {
        assert(after == step);
        assert(after.effects.take(view.effects.len() as int) =~= view.effects);
        assert(after.effects[view.effects.len() as int] == closing_effect(last, owed));
    }
}

} // verus!
