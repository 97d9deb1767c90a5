//! Who is told what when a project changes.

use crate::envelope::event_message;
use crate::json::{json_bytes, json_field, JsonView};
use crate::message_laws::{announcements_describe_the_project, events_say_their_name};
use crate::path::components;
use crate::project::RecordView;
use crate::protocol::{CapacityPermit, ConnectionId, CounterName, OutboundView, WriterMessageView};
use crate::server::answers::{additions_add_up, is_handed, is_lost, only_adds_effects, told_or_lost, what_is_told_lasts};
use crate::server::membership::connections_are_found;
use crate::server::model::{connection_place, waiters_on, Connection, EffectView, ServerView, WaiterView};
use crate::server::registry_watch::{pending_without, updated_payload};
use crate::server::replacement::{broadcasting_only_sends, ends, event_enabled, event_path, moves};
use crate::server::replies::is_there;
use crate::time::Duration;
use vstd::prelude::*;

verus! {

// ---------------------------------------------------------------------------
// One frame

/// The connection is there and its writer takes frames.
pub open spec fn is_open(view: ServerView, connection: ConnectionId) -> bool {
    exists|k: int| 0 <= k < view.connections.len() && (#[trigger] view.connections[k]).id == connection && view.connections[k].writer_open
}

/// No two connections share a number.
pub open spec fn numbers_differ(connections: Seq<Connection>) -> bool {
    forall|i: int, j: int| 0 <= i < j < connections.len() ==> (#[trigger] connections[i]).id != (#[trigger] connections[j]).id
}

/// A frame of that size can be queued for the connection now.
pub open spec fn has_room_for(view: ServerView, connection: ConnectionId, size: nat) -> bool {
    &&& is_open(view, connection)
    &&& size <= view.limits.frame_bytes
    &&& view.ledger[CounterName::WriterBytes(connection)] + size <= view.limits.egress_bytes
    &&& view.ledger[CounterName::GlobalWriterBytes] + size <= view.limits.global_egress_bytes
    &&& view.ledger[CounterName::WriterFrames(connection)] < view.limits.egress_frames
}

proof fn open_connections_are_found(view: ServerView, connection: ConnectionId)
    requires
        numbers_differ(view.connections),
    ensures
        is_open(view, connection) <==> view.connected(connection) && view.writer_open(connection),
        view.connected(connection) <==> exists|k: int| 0 <= k < view.connections.len() && (#[trigger] view.connections[k]).id == connection,
{
    connections_are_found(view.connections, connection);
    let at = connection_place(view.connections, connection);
    if is_open(view, connection) {
        let k = choose|k: int| 0 <= k < view.connections.len() && (#[trigger] view.connections[k]).id == connection && view.connections[k].writer_open;
        if k < at {
            assert(view.connections[k].id != view.connections[at].id);
        } else if at < k {
            assert(view.connections[at].id != view.connections[k].id);
        }
    }
}

/// A frame is handed over exactly if there is room for it. It then occupies
/// its bytes, for the connection and overall, and one place in the writer's
/// queue, and nothing else changes.
pub proof fn frames_are_handed_over_where_there_is_room(view: ServerView, connection: ConnectionId, frame: JsonView, close_on_failure: bool)
    requires
        numbers_differ(view.connections),
    ensures
        ({
            let (after, sent) = view.queued(connection, frame, close_on_failure);
            let size = json_bytes(frame).len();
            &&& sent <==> has_room_for(view, connection, size)
            &&& after == (ServerView { ledger: after.ledger, effects: after.effects, ..view })
            &&& sent ==> {
                &&& after.effects.len() == view.effects.len() + 1
                &&& after.effects.drop_last() == view.effects
                &&& after.effects.last() matches EffectView::Deliver { connection: to, message } && to == connection && message
                    == WriterMessageView::Frame(
                    OutboundView {
                        bytes: json_bytes(frame),
                        connection,
                        writer_slot: Some(CapacityPermit { primary: CounterName::WriterFrames(connection), secondary: None }),
                    },
                )
                &&& after.ledger[CounterName::WriterBytes(connection)] == view.ledger[CounterName::WriterBytes(connection)] + size
                &&& after.ledger[CounterName::GlobalWriterBytes] == view.ledger[CounterName::GlobalWriterBytes] + size
                &&& after.ledger[CounterName::WriterFrames(connection)] == view.ledger[CounterName::WriterFrames(connection)] + 1
                &&& forall|name: CounterName|
                    name != CounterName::WriterBytes(connection) && name != CounterName::GlobalWriterBytes && name
                        != CounterName::WriterFrames(connection) ==> #[trigger] after.ledger[name] == view.ledger[name]
            }
            &&& !sent ==> after.ledger == view.ledger && after.effects == if close_on_failure && (exists|k: int|
                0 <= k < view.connections.len() && (#[trigger] view.connections[k]).id == connection) {
                view.effects.push(EffectView::Shutdown { connection })
            } else {
                view.effects
            }
        }),
{
    open_connections_are_found(view, connection);
    let (after, sent) = view.queued(connection, frame, close_on_failure);
    if sent {
        assert(after.effects.drop_last() =~= view.effects);
    }
}

// ---------------------------------------------------------------------------
// One event to everyone

/// The connection is owed frames: some are under way, or it waits for answers.
pub open spec fn is_owed_frames(view: ServerView, connection: ConnectionId) -> bool {
    ||| view.ledger[CounterName::RequiredDeliveries(connection)] > 0
    ||| exists|i: int| 0 <= i < view.waiters.len() && (#[trigger] view.waiters[i]).connection == connection
}

/// An event of that size finds room at the connection even after everyone else
/// has been sent it; where the connection is owed frames, their places stay
/// free.
pub open spec fn can_take_event(view: ServerView, connection: ConnectionId, size: nat) -> bool {
    &&& is_open(view, connection)
    &&& size <= view.limits.frame_bytes
    &&& view.ledger[CounterName::WriterBytes(connection)] + size <= view.limits.egress_bytes
    &&& view.ledger[CounterName::GlobalWriterBytes] + size * view.connections.len() <= view.limits.global_egress_bytes
    &&& view.ledger[CounterName::WriterFrames(connection)] < view.limits.egress_frames
    &&& is_owed_frames(view, connection) ==> view.ledger[CounterName::WriterFrames(connection)]
        + view.ledger[CounterName::RequiredDeliveries(connection)] < view.limits.egress_frames
}

proof fn waiters_on_are_there(list: Seq<WaiterView>, connection: ConnectionId)
    ensures
        waiters_on(list, connection).len() > 0 <==> exists|i: int| 0 <= i < list.len() && (#[trigger] list[i]).connection == connection,
    decreases list.len(),
{
    if list.len() > 0 {
        let shorter = list.drop_last();
        waiters_on_are_there(shorter, connection);
        if list.last().connection == connection {
            assert(list[list.len() - 1].connection == connection);
        }
        if exists|i: int| 0 <= i < shorter.len() && (#[trigger] shorter[i]).connection == connection {
            let i = choose|i: int| 0 <= i < shorter.len() && (#[trigger] shorter[i]).connection == connection;
            assert(list[i].connection == connection);
        }
        if exists|i: int| 0 <= i < list.len() && (#[trigger] list[i]).connection == connection {
            let i = choose|i: int| 0 <= i < list.len() && (#[trigger] list[i]).connection == connection;
            if i < shorter.len() {
                assert(shorter[i].connection == connection);
            }
        }
    }
}

proof fn sending_one_event(view: ServerView, connection: ConnectionId, name: Seq<char>, payload: JsonView)
    requires
        numbers_differ(view.connections),
    ensures
        ({
            let after = view.lifecycle_event_sent(connection, name, payload);
            let document = event_message(name, payload);
            let size = json_bytes(document).len();
            &&& after == (ServerView { ledger: after.ledger, effects: after.effects, ..view })
            &&& only_adds_effects(view, after)
            &&& after.ledger[CounterName::GlobalWriterBytes] <= view.ledger[CounterName::GlobalWriterBytes] + size
            &&& forall|other: ConnectionId| other != connection ==> {
                &&& #[trigger] after.ledger[CounterName::WriterBytes(other)] == view.ledger[CounterName::WriterBytes(other)]
                &&& #[trigger] after.ledger[CounterName::WriterFrames(other)] == view.ledger[CounterName::WriterFrames(other)]
            }
            &&& forall|other: ConnectionId| #[trigger] after.ledger[CounterName::RequiredDeliveries(other)]
                == view.ledger[CounterName::RequiredDeliveries(other)]
            &&& view.connected(connection) && !is_owed_frames(view, connection) ==> told_or_lost(view, after, connection, document)
            &&& has_room_for(view, connection, size) && (is_owed_frames(view, connection) ==> view.ledger[CounterName::WriterFrames(
                connection,
            )] + view.ledger[CounterName::RequiredDeliveries(connection)] < view.limits.egress_frames) ==> after.effects.len()
                == view.effects.len() + 1 && is_handed(after.effects.last(), connection, document)
        }),
{
    let document = event_message(name, payload);
    let after = view.lifecycle_event_sent(connection, name, payload);
    let protected = view.owes_delivery(connection);
    waiters_on_are_there(view.waiters, connection);
    open_connections_are_found(view, connection);
    frames_are_handed_over_where_there_is_room(view, connection, document, !protected);
    assert(after.effects.take(view.effects.len() as int) =~= view.effects);
    if view.connected(connection) && !is_owed_frames(view, connection) {
        assert(!protected);
        assert(after.effects.len() == view.effects.len() + 1);
        let i = view.effects.len() as int;
        assert(after.effects[i] == after.effects.last());
        assert(is_handed(after.effects[i], connection, document) || is_lost(after.effects[i], connection));
    }
}

/// An event for everyone is handed to every connection that can take it, and
/// every connection that it does not reach is brought to its end, unless the
/// connection is owed frames.
pub proof fn events_for_everyone_reach_everyone(view: ServerView, name: Seq<char>, payload: JsonView, connection: ConnectionId)
    requires
        numbers_differ(view.connections),
    ensures
        ({
            let after = view.broadcast(name, payload);
            let document = event_message(name, payload);
            &&& only_adds_effects(view, after)
            &&& can_take_event(view, connection, json_bytes(document).len()) ==> exists|i: int|
                view.effects.len() <= i < after.effects.len() && is_handed(#[trigger] after.effects[i], connection, document)
            &&& (exists|k: int| 0 <= k < view.connections.len() && (#[trigger] view.connections[k]).id == connection)
                && !is_owed_frames(view, connection) ==> told_or_lost(view, after, connection, document)
        }),
{
    let document = event_message(name, payload);
    open_connections_are_found(view, connection);
    if view.connected(connection) {
        let k = connection_place(view.connections, connection);
        connections_are_found(view.connections, connection);
        broadcasts_reach(view, name, payload, view.connections.len() as int, k);
        assert(view.connections.take(view.connections.len() as int) =~= view.connections);
    } else {
        broadcasts_only_add(view, name, payload);
    }
}

/// Whoever is connected, an event for everyone takes nothing back.
pub(crate) proof fn broadcasts_only_add(view: ServerView, name: Seq<char>, payload: JsonView)
    ensures
        only_adds_effects(view, view.broadcast(name, payload)),
{
    sendings_add(view, view.connections, name, payload);
}

proof fn sendings_add(view: ServerView, connections: Seq<Connection>, name: Seq<char>, payload: JsonView)
    ensures
        only_adds_effects(view, view.broadcast_to(connections, name, payload)),
    decreases connections.len(),
{
    let after = view.broadcast_to(connections, name, payload);
    if connections.len() == 0 {
        assert(view.effects.take(view.effects.len() as int) =~= view.effects);
    } else {
        let before = view.broadcast_to(connections.drop_last(), name, payload);
        sendings_add(view, connections.drop_last(), name, payload);
        assert(after.effects.take(before.effects.len() as int) =~= before.effects);
        additions_add_up(view, before, after);
    }
}

proof fn broadcasts_reach(view: ServerView, name: Seq<char>, payload: JsonView, n: int, k: int)
    requires
        numbers_differ(view.connections),
        0 <= n <= view.connections.len(),
        0 <= k < view.connections.len(),
    ensures
        ({
            let after = view.broadcast_to(view.connections.take(n), name, payload);
            let document = event_message(name, payload);
            let size = json_bytes(document).len();
            let connection = view.connections[k].id;
            &&& after == (ServerView { ledger: after.ledger, effects: after.effects, ..view })
            &&& only_adds_effects(view, after)
            &&& after.ledger[CounterName::GlobalWriterBytes] <= view.ledger[CounterName::GlobalWriterBytes] + size * n
            &&& after.ledger[CounterName::RequiredDeliveries(connection)] == view.ledger[CounterName::RequiredDeliveries(connection)]
            &&& n <= k ==> {
                &&& after.ledger[CounterName::WriterBytes(connection)] == view.ledger[CounterName::WriterBytes(connection)]
                &&& after.ledger[CounterName::WriterFrames(connection)] == view.ledger[CounterName::WriterFrames(connection)]
            }
            &&& k < n && can_take_event(view, connection, size) ==> exists|i: int|
                view.effects.len() <= i < after.effects.len() && is_handed(#[trigger] after.effects[i], connection, document)
            &&& k < n && !is_owed_frames(view, connection) ==> told_or_lost(view, after, connection, document)
        }),
    decreases n,
{
    let after = view.broadcast_to(view.connections.take(n), name, payload);
    let document = event_message(name, payload);
    let size = json_bytes(document).len();
    let connection = view.connections[k].id;
    open_connections_are_found(view, connection);
    assert(view.connections[k].id == connection);
    if n == 0 {
        assert(view.effects.take(view.effects.len() as int) =~= view.effects);
        assert(size * n == 0) by (nonlinear_arith)
            requires
                n == 0,
        ;
    } else {
        let before = view.broadcast_to(view.connections.take(n - 1), name, payload);
        let last = view.connections[n - 1].id;
        assert(view.connections.take(n).drop_last() =~= view.connections.take(n - 1));
        assert(view.connections.take(n).last().id == last);
        broadcasts_reach(view, name, payload, n - 1, k);
        sending_one_event(before, last, name, payload);
        assert(size * n == size * (n - 1) + size) by (nonlinear_arith);
        assert(after.effects.take(view.effects.len() as int) =~= after.effects.take(before.effects.len() as int).take(
            view.effects.len() as int,
        ));
        if k == n - 1 {
            assert(is_owed_frames(before, connection) == is_owed_frames(view, connection));
            assert(is_open(before, connection) == is_open(view, connection));
            assert(before.connected(connection));
            if can_take_event(view, connection, size) {
                assert(size * n <= size * view.connections.len()) by (nonlinear_arith)
                    requires
                        0 <= n <= view.connections.len(),
                        0 <= size,
                ;
                assert(has_room_for(before, connection, size));
                assert(is_handed(after.effects[after.effects.len() - 1], connection, document));
            }
            if !is_owed_frames(view, connection) {
                let i = choose|i: int|
                    before.effects.len() <= i < after.effects.len() && (is_handed(#[trigger] after.effects[i], connection, document)
                        || is_lost(after.effects[i], connection));
                assert(is_handed(after.effects[i], connection, document) || is_lost(after.effects[i], connection));
            }
        } else {
            assert(connection != last) by {
                if k < n - 1 {
                    assert(view.connections[k].id != view.connections[n - 1].id);
                } else {
                    assert(view.connections[n - 1].id != view.connections[k].id);
                }
            }
            assert forall|i: int| 0 <= i < before.effects.len() implies #[trigger] after.effects[i] == before.effects[i] by {
                assert(after.effects.take(before.effects.len() as int)[i] == after.effects[i]);
            }
            if k < n && can_take_event(view, connection, size) {
                let i = choose|i: int|
                    view.effects.len() <= i < before.effects.len() && is_handed(#[trigger] before.effects[i], connection, document);
                assert(is_handed(after.effects[i], connection, document));
            }
            if k < n && !is_owed_frames(view, connection) {
                let i = choose|i: int|
                    view.effects.len() <= i < before.effects.len() && (is_handed(#[trigger] before.effects[i], connection, document)
                        || is_lost(before.effects[i], connection));
                assert(is_handed(after.effects[i], connection, document) || is_lost(after.effects[i], connection));
            }
        }
    }
}

// ---------------------------------------------------------------------------
// A registration that changed

/// The two registrations of a project differ: one of them is missing, or they
/// do not agree on the id, the place, the name, the command or on whether the
/// project is enabled.
pub open spec fn differ(previous: Option<RecordView>, next: Option<RecordView>) -> bool {
    match (previous, next) {
        (Some(a), Some(b)) => a.id != b.id || components(a.path) != components(b.path) || a.name != b.name || a.enabled
            != b.enabled || a.cook != b.cook,
        (None, None) => false,
        _ => true,
    }
}

/// The document is the event that announces a project as it is registered now:
/// with its present path, or the last one of a project that is gone.
pub open spec fn announces(document: JsonView, id: Seq<char>, previous: Option<RecordView>, next: Option<RecordView>) -> bool {
    let payload = json_field(document, "payload"@)->0;
    &&& json_field(document, "v"@) == Some(JsonView::Unsigned(1))
    &&& json_field(document, "kind"@) == Some(JsonView::Text("event"@))
    &&& json_field(document, "name"@) == Some(JsonView::Text("project.updated"@))
    &&& json_field(payload, "projectId"@) == Some(JsonView::Text(id))
    &&& match next {
        Some(next) => json_field(payload, "path"@) == Some(JsonView::Text(next.path)) && json_field(payload, "enabled"@) == Some(
            JsonView::Bool(next.enabled),
        ),
        None => json_field(payload, "enabled"@) == Some(JsonView::Bool(false)) && (previous matches Some(previous) ==> json_field(
            payload,
            "path"@,
        ) == Some(JsonView::Text(previous.path))),
    }
}

proof fn announcements_announce(id: Seq<char>, previous: Option<RecordView>, next: Option<RecordView>)
    ensures
        announces(
            event_message("project.updated"@, updated_payload(id, event_path(previous, next), event_enabled(next))),
            id,
            previous,
            next,
        ),
{
    let payload = updated_payload(id, event_path(previous, next), event_enabled(next));
    events_say_their_name("project.updated"@, payload);
    announcements_describe_the_project(id, event_path(previous, next), event_enabled(next));
}

/// Everyone learns of a changed registration: each connection that can take
/// the event is handed one that announces the project as it is registered
/// now, where the change ends nothing, and in any case each connection is
/// handed it, is brought to its end, or is owed frames.
pub proof fn changed_registrations_are_announced(view: ServerView, id: Seq<char>, previous: Option<RecordView>, next: Option<RecordView>, watch_retried: bool, connection: ConnectionId)
    requires
        numbers_differ(view.connections),
        differ(previous, next) || watch_retried,
    ensures
        ({
            let after = view.registration_changed(id, previous, next, watch_retried).0;
            &&& only_adds_effects(view, after)
            &&& exists|document: JsonView| {
                &&& #[trigger] announces(document, id, previous, next)
                &&& !ends(previous, next) && can_take_event(view, connection, json_bytes(document).len()) ==> exists|i: int|
                    view.effects.len() <= i < after.effects.len() && is_handed(#[trigger] after.effects[i], connection, document)
                &&& (exists|k: int| 0 <= k < view.connections.len() && (#[trigger] view.connections[k]).id == connection)
                    && !is_owed_frames(after, connection) ==> told_or_lost(view, after, connection, document)
            }
        }),
{
    let moved = view.renumbered(id, previous, next).cache_moved(id, previous, next);
    let restart_gets = moves(previous, next);
    let closed = if ends(previous, next) {
        moved.project_closed(id, restart_gets)
    } else {
        moved
    };
    let payload = updated_payload(id, event_path(previous, next), event_enabled(next));
    let document = event_message("project.updated"@, payload);
    let after = view.registration_changed(id, previous, next, watch_retried).0;
    assert(after == closed.broadcast("project.updated"@, payload));
    announcements_announce(id, previous, next);
    if ends(previous, next) {
        crate::server::answers::closing_a_project_only_adds(moved, id, restart_gets);
    } else {
        assert(closed.effects.take(view.effects.len() as int) =~= view.effects);
    }
    assert(closed.connections == view.connections);
    assert(only_adds_effects(view, closed));
    events_for_everyone_reach_everyone(closed, "project.updated"@, payload, connection);
    broadcasting_only_sends(closed, closed.connections, "project.updated"@, payload);
    assert(after.effects.take(view.effects.len() as int) =~= after.effects.take(closed.effects.len() as int).take(
        view.effects.len() as int,
    ));
    if exists|k: int| 0 <= k < view.connections.len() && (#[trigger] view.connections[k]).id == connection {
        let k = choose|k: int| 0 <= k < view.connections.len() && (#[trigger] view.connections[k]).id == connection;
        assert(closed.connections[k].id == connection);
        broadcasts_reach(closed, "project.updated"@, payload, closed.connections.len() as int, k);
        assert(closed.connections.take(closed.connections.len() as int) =~= closed.connections);
        if !is_owed_frames(after, connection) {
            assert(!is_owed_frames(closed, connection)) by {
                if exists|i: int| 0 <= i < closed.waiters.len() && (#[trigger] closed.waiters[i]).connection == connection {
                    let i = choose|i: int| 0 <= i < closed.waiters.len() && (#[trigger] closed.waiters[i]).connection == connection;
                    assert(after.waiters[i].connection == connection);
                }
            }
            let i = choose|i: int|
                closed.effects.len() <= i < after.effects.len() && (is_handed(#[trigger] after.effects[i], connection, document)
                    || is_lost(after.effects[i], connection));
            assert(is_handed(after.effects[i], connection, document) || is_lost(after.effects[i], connection));
        }
    }
    if !ends(previous, next) && can_take_event(view, connection, json_bytes(document).len()) {
        assert(is_owed_frames(closed, connection) == is_owed_frames(view, connection));
        assert(can_take_event(closed, connection, json_bytes(document).len()));
    }
}

/// A registration that does not differ is announced to nobody and changes
/// nothing, unless its watch was retried.
pub proof fn unchanged_registrations_are_passed_over(view: ServerView, id: Seq<char>, previous: Option<RecordView>, next: Option<RecordView>)
    requires
        !differ(previous, next),
    ensures
        view.registration_changed(id, previous, next, false) == (view, false),
{
}

// ---------------------------------------------------------------------------
// Projects that are watched at last

proof fn announcing_all(view: ServerView, list: Seq<RecordView>, connection: ConnectionId)
    requires
        numbers_differ(view.connections),
        exists|k: int| 0 <= k < view.connections.len() && (#[trigger] view.connections[k]).id == connection,
        !is_owed_frames(view, connection),
    ensures
        ({
            let after = view.projects_announced(list);
            &&& only_adds_effects(view, after)
            &&& after == (ServerView { ledger: after.ledger, effects: after.effects, ..view })
            &&& !is_owed_frames(after, connection)
            &&& forall|i: int|
                0 <= i < list.len() ==> told_or_lost(
                    view,
                    after,
                    connection,
                    event_message(
                        "project.updated"@,
                        updated_payload((#[trigger] list[i]).id, list[i].path, true),
                    ),
                )
        }),
    decreases list.len(),
{
    let after = view.projects_announced(list);
    if list.len() == 0 {
        assert(view.effects.take(view.effects.len() as int) =~= view.effects);
    } else {
        let shorter = list.drop_last();
        let before = view.projects_announced(shorter);
        let payload = updated_payload(list.last().id, list.last().path, true);
        let document = event_message("project.updated"@, payload);
        announcing_all(view, shorter, connection);
        let k = choose|k: int| 0 <= k < view.connections.len() && (#[trigger] view.connections[k]).id == connection;
        assert(before.connections[k].id == connection);
        events_for_everyone_reach_everyone(before, "project.updated"@, payload, connection);
        broadcasting_only_sends(before, before.connections, "project.updated"@, payload);
        broadcasts_reach(before, "project.updated"@, payload, before.connections.len() as int, k);
        assert(before.connections.take(before.connections.len() as int) =~= before.connections);
        additions_add_up(view, before, after);
        assert(view.effects.take(view.effects.len() as int) =~= view.effects);
        assert(after.effects.take(after.effects.len() as int) =~= after.effects);
        assert forall|i: int| 0 <= i < list.len() implies told_or_lost(
            view,
            after,
            connection,
            event_message("project.updated"@, updated_payload((#[trigger] list[i]).id, list[i].path, true)),
        ) by {
            if i < shorter.len() {
                assert(shorter[i] == list[i]);
                what_is_told_lasts(
                    view,
                    view,
                    before,
                    after,
                    connection,
                    event_message("project.updated"@, updated_payload(list[i].id, list[i].path, true)),
                );
            } else {
                what_is_told_lasts(view, before, after, after, connection, document);
            }
        }
    }
}

/// A project that is watched at last is pending no longer, and everyone who is
/// not owed frames is told of it: that it is there, and enabled.
pub proof fn projects_watched_at_last_are_announced(view: ServerView, installed: Seq<RecordView>, now: Duration, connection: ConnectionId, i: int)
    requires
        numbers_differ(view.connections),
        exists|k: int| 0 <= k < view.connections.len() && (#[trigger] view.connections[k]).id == connection,
        !is_owed_frames(view, connection),
        0 <= i < installed.len(),
        installed[i].enabled,
    ensures
        ({
            let after = view.watches_installed(installed, now);
            &&& !after.pending_watches.contains(installed[i].id)
            &&& exists|document: JsonView|
                #[trigger] announces(document, installed[i].id, None, Some(installed[i])) && told_or_lost(view, after, connection, document)
        }),
{
    let rest = pending_without(view.pending_watches, installed);
    let start = ServerView { pending_watches: rest, ..view }.retry_scheduled(now);
    let k = choose|k: int| 0 <= k < view.connections.len() && (#[trigger] view.connections[k]).id == connection;
    assert(start.connections[k].id == connection);
    assert(is_owed_frames(start, connection) == is_owed_frames(view, connection));
    announcing_all(start, installed, connection);
    crate::server::takeover::unwatched_projects_are_not_pending(view.pending_watches, installed, installed[i].id);
    announcements_announce(installed[i].id, None, Some(installed[i]));
    let after = view.watches_installed(installed, now);
    let document = event_message("project.updated"@, updated_payload(installed[i].id, installed[i].path, true));
    assert(start.effects == view.effects);
    assert(told_or_lost(start, after, connection, document));
    let m = choose|m: int|
        start.effects.len() <= m < after.effects.len() && (is_handed(#[trigger] after.effects[m], connection, document) || is_lost(
            after.effects[m],
            connection,
        ));
    assert(is_handed(after.effects[m], connection, document) || is_lost(after.effects[m], connection));
    assert(announces(document, installed[i].id, None, Some(installed[i])));
}

// ---------------------------------------------------------------------------
// Last frames

/// The last frame of a request or of a subscription is handed over exactly if
/// the connection takes frames and the frame is within its size, and, unless it
/// is required, its bytes fit; a required one is then owed until it is written.
pub proof fn last_frames_are_handed_over(view: ServerView, connection: ConnectionId, frame: JsonView, owner: CapacityPermit, required: bool)
    requires
        numbers_differ(view.connections),
        owner.primary != CounterName::WriterBytes(connection) && owner.primary != CounterName::GlobalWriterBytes,
        owner.primary != CounterName::RequiredDeliveries(connection),
        owner.secondary matches Some(name) ==> name != CounterName::WriterBytes(connection) && name != CounterName::GlobalWriterBytes
            && name != CounterName::RequiredDeliveries(connection),
        view.ledger[CounterName::RequiredDeliveries(connection)] < usize::MAX,
    ensures
        ({
            let (after, sent) = view.ended(connection, frame, owner, required);
            let size = json_bytes(frame).len();
            &&& sent <==> {
                &&& is_open(view, connection)
                &&& size <= view.limits.frame_bytes
                &&& required || (view.ledger[CounterName::WriterBytes(connection)] + size <= view.limits.egress_bytes
                    && view.ledger[CounterName::GlobalWriterBytes] + size <= view.limits.global_egress_bytes)
            }
            &&& sent ==> {
                &&& after.effects.len() == view.effects.len() + 1
                &&& is_handed(after.effects.last(), connection, frame)
                &&& required ==> after.ledger[CounterName::RequiredDeliveries(connection)]
                    == view.ledger[CounterName::RequiredDeliveries(connection)] + 1
                &&& !required ==> after.ledger[CounterName::WriterBytes(connection)] == view.ledger[CounterName::WriterBytes(connection)]
                    + size && after.ledger[CounterName::GlobalWriterBytes] == view.ledger[CounterName::GlobalWriterBytes] + size
            }
            &&& !sent && view.connected(connection) ==> after.effects == view.effects.push(EffectView::Shutdown { connection })
            &&& !view.connected(connection) ==> after.effects == view.effects
            &&& after == (ServerView { ledger: after.ledger, effects: after.effects, ..view })
        }),
{
    open_connections_are_found(view, connection);
}

/// A last frame takes a place in the writer's queue and gives the place of its
/// request or subscription back; where the queue is full it keeps the place
/// that it had.
pub proof fn last_frames_keep_a_place(view: ServerView, connection: ConnectionId, frame: JsonView, owner: CapacityPermit)
    requires
        view.connected(connection),
        view.writer_open(connection),
        json_bytes(frame).len() <= view.limits.frame_bytes,
        owner.secondary is None,
        owner.primary != CounterName::WriterFrames(connection),
        owner.primary != CounterName::RequiredDeliveries(connection),
        view.ledger[owner.primary] > 0,
    ensures
        ({
            let after = view.ended(connection, frame, owner, true).0;
            let slot = CapacityPermit { primary: CounterName::WriterFrames(connection), secondary: None };
            let free = view.ledger[CounterName::WriterFrames(connection)] < view.limits.egress_frames;
            &&& after.effects.last() matches EffectView::Deliver { connection: to, message: WriterMessageView::Terminal(terminal) } && {
                &&& terminal.bytes == json_bytes(frame)
                &&& terminal.capacity == if free { slot } else { owner }
                &&& terminal.required_deliveries == Some(connection)
                &&& terminal.accounted is None
            }
            &&& free ==> after.ledger[CounterName::WriterFrames(connection)] == view.ledger[CounterName::WriterFrames(connection)] + 1
                && after.ledger[owner.primary] == view.ledger[owner.primary] - 1
            &&& !free ==> after.ledger[CounterName::WriterFrames(connection)] == view.ledger[CounterName::WriterFrames(connection)]
                && after.ledger[owner.primary] == view.ledger[owner.primary]
        }),
{
}

/// An event for everyone never costs a connection that is owed frames: there it
/// is sent only into a place that these leave free, and otherwise left out. It
/// costs any other connection that has no room for it.
pub proof fn owed_frames_come_before_events(view: ServerView, connection: ConnectionId, name: Seq<char>, payload: JsonView)
    requires
        is_there(view, connection),
    ensures
        ({
            let after = view.lifecycle_event_sent(connection, name, payload);
            let frames = view.ledger[CounterName::WriterFrames(connection)];
            let owed = view.ledger[CounterName::RequiredDeliveries(connection)];
            &&& is_owed_frames(view, connection) && frames + owed >= view.limits.egress_frames ==> after == view
            &&& is_owed_frames(view, connection) ==> after.effects == view.effects || (after.effects.last() is Deliver
                && after.effects.drop_last() == view.effects)
            &&& !is_owed_frames(view, connection) && json_bytes(event_message(name, payload)).len() > view.limits.frame_bytes
                ==> after.effects == view.effects.push(EffectView::Shutdown { connection })
            &&& !is_owed_frames(view, connection) && frames >= view.limits.egress_frames ==> after.effects == view.effects.push(
                EffectView::Shutdown { connection },
            )
        }),
{
    waiters_on_are_there(view.waiters, connection);
    connections_are_found(view.connections, connection);
    let k = choose|k: int| 0 <= k < view.connections.len() && (#[trigger] view.connections[k]).id == connection;
    assert(view.connections[k].id == connection);
    let after = view.lifecycle_event_sent(connection, name, payload);
    if after.effects.len() > view.effects.len() {
        assert(after.effects.drop_last() =~= view.effects);
    }
}

} // verus!
