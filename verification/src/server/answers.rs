//! Every request is answered, or its connection ends: at once, at the end of
//! the command that it waits for, or when its project or the daemon ends. So
//! is everyone told who follows a project.

use crate::envelope::{error_message, event_message, read_envelope, result_message, EnvelopeView, MethodView};
use crate::json::{json_bytes, json_field, JsonView};
use crate::project::{ProjectionView, SnapshotView};
use crate::protocol::{CapacityPermit, ConnectionId, WriterMessageView};
use crate::server::endings::ended_payload;
use crate::server::events::{cancelling_only_asks, refusing_only_sends};
use crate::server::membership::{clients_sound, connections_are_found};
use crate::server::model::{active_place, connection_place, same_run, subscribers, subscription_id, subscriptions_beside,
    subscriptions_for, texts_except, waiter_permit, waiters_for, EffectView, RunView, ServerView, SubscriptionView, WaitKindView, WaiterView};
use crate::server::replacement::ending_only_sends;
use crate::server::runs::asking_starts_runs;
use crate::server::snapshots::{failed_payload, replaced_payload, subscription_result};
use crate::snapshot::{failure_code, failure_text, FailureView};
use crate::time::Duration;
use vstd::prelude::*;

verus! {

/// The bytes that a writer is handed.
pub open spec fn message_bytes(message: WriterMessageView) -> Option<Seq<u8>> {
    match message {
        WriterMessageView::Frame(frame) => Some(frame.bytes),
        WriterMessageView::Terminal(frame) => Some(frame.bytes),
        WriterMessageView::Close => None,
    }
}

/// The document is a response to the request of that id.
pub open spec fn is_response(document: JsonView, id: Seq<char>) -> bool {
    ||| exists|result: JsonView| document == #[trigger] result_message(id, result)
    ||| exists|code: Seq<char>, message: Seq<char>| document == #[trigger] error_message(id, code, message)
}

/// The connection is brought to its end.
pub open spec fn is_lost(effect: EffectView, connection: ConnectionId) -> bool {
    match effect {
        EffectView::Shutdown { connection: c } => c == connection,
        EffectView::Close { connection: c, .. } => c == connection,
        _ => false,
    }
}

/// The connection is handed that document.
pub open spec fn is_handed(effect: EffectView, connection: ConnectionId, document: JsonView) -> bool {
    effect matches EffectView::Deliver { connection: c, message } && c == connection && message_bytes(message) == Some(
        json_bytes(document),
    )
}

/// The connection is handed a response to that request.
pub open spec fn is_answered(effect: EffectView, connection: ConnectionId, id: Seq<char>) -> bool {
    exists|document: JsonView| #[trigger] is_handed(effect, connection, document) && is_response(document, id)
}

/// Between the two states the request was answered, or its connection was
/// brought to its end.
pub open spec fn answered_or_lost(a: ServerView, b: ServerView, connection: ConnectionId, id: Seq<char>) -> bool {
    exists|i: int|
        a.effects.len() <= i < b.effects.len() && (is_answered(#[trigger] b.effects[i], connection, id) || is_lost(
            b.effects[i],
            connection,
        ))
}

/// Between the two states the connection was handed the document, or brought
/// to its end.
pub open spec fn told_or_lost(a: ServerView, b: ServerView, connection: ConnectionId, document: JsonView) -> bool {
    exists|i: int|
        a.effects.len() <= i < b.effects.len() && (is_handed(#[trigger] b.effects[i], connection, document) || is_lost(
            b.effects[i],
            connection,
        ))
}

/// Nothing that was to be done outside is taken back.
pub open spec fn only_adds_effects(a: ServerView, b: ServerView) -> bool {
    &&& a.effects.len() <= b.effects.len()
    &&& b.effects.take(a.effects.len() as int) == a.effects
}

pub(crate) proof fn additions_add_up(a: ServerView, b: ServerView, c: ServerView)
    requires
        only_adds_effects(a, b),
        only_adds_effects(b, c),
    ensures
        only_adds_effects(a, c),
{
    assert(c.effects.take(a.effects.len() as int) =~= c.effects.take(b.effects.len() as int).take(a.effects.len() as int));
}

pub(crate) proof fn nothing_is_added(a: ServerView, b: ServerView)
    requires
        a.effects == b.effects,
    ensures
        only_adds_effects(a, b),
{
    assert(b.effects.take(a.effects.len() as int) =~= a.effects);
}

pub(crate) proof fn one_is_added(a: ServerView, b: ServerView, effect: EffectView)
    requires
        b.effects == a.effects.push(effect),
    ensures
        only_adds_effects(a, b),
        b.effects[a.effects.len() as int] == effect,
{
    assert(b.effects.take(a.effects.len() as int) =~= a.effects);
}

/// What was answered stays answered, and what is answered later counts.
proof fn answers_last(a: ServerView, b: ServerView, c: ServerView, d: ServerView, connection: ConnectionId, id: Seq<char>)
    requires
        only_adds_effects(a, b),
        answered_or_lost(b, c, connection, id),
        only_adds_effects(c, d),
    ensures
        answered_or_lost(a, d, connection, id),
{
    let i = choose|i: int|
        b.effects.len() <= i < c.effects.len() && (is_answered(#[trigger] c.effects[i], connection, id) || is_lost(c.effects[i], connection));
    assert(d.effects.take(c.effects.len() as int)[i] == d.effects[i]);
}

pub(crate) proof fn what_is_told_lasts(a: ServerView, b: ServerView, c: ServerView, d: ServerView, connection: ConnectionId, document: JsonView)
    requires
        only_adds_effects(a, b),
        told_or_lost(b, c, connection, document),
        only_adds_effects(c, d),
    ensures
        told_or_lost(a, d, connection, document),
{
    let i = choose|i: int|
        b.effects.len() <= i < c.effects.len() && (is_handed(#[trigger] c.effects[i], connection, document) || is_lost(
            c.effects[i],
            connection,
        ));
    assert(d.effects.take(c.effects.len() as int)[i] == d.effects[i]);
}

proof fn told_is_answered(a: ServerView, b: ServerView, connection: ConnectionId, document: JsonView, id: Seq<char>)
    requires
        told_or_lost(a, b, connection, document),
        is_response(document, id),
    ensures
        answered_or_lost(a, b, connection, id),
{
    let i = choose|i: int|
        a.effects.len() <= i < b.effects.len() && (is_handed(#[trigger] b.effects[i], connection, document) || is_lost(
            b.effects[i],
            connection,
        ));
    assert(is_answered(b.effects[i], connection, id) || is_lost(b.effects[i], connection));
}

// ---------------------------------------------------------------------------
// Sending

/// A frame that must not be lost is handed over, or the connection ends.
pub(crate) proof fn sending_reaches(view: ServerView, connection: ConnectionId, document: JsonView)
    requires
        view.connected(connection),
    ensures
        ({
            let after = view.queued(connection, document, true).0;
            only_adds_effects(view, after) && told_or_lost(view, after, connection, document) && after.connections == view.connections
        }),
{
    let after = view.queued(connection, document, true).0;
    one_is_added(view, after, after.effects.last());
    assert(is_handed(after.effects[view.effects.len() as int], connection, document) || is_lost(
        after.effects[view.effects.len() as int],
        connection,
    ));
}

/// The last frame of a request or subscription is handed over, or the
/// connection ends.
pub(crate) proof fn ending_reaches(view: ServerView, connection: ConnectionId, document: JsonView, owner: CapacityPermit, required: bool)
    ensures
        ({
            let after = view.ended(connection, document, owner, required).0;
            &&& only_adds_effects(view, after)
            &&& view.connected(connection) ==> told_or_lost(view, after, connection, document)
            &&& after.connections == view.connections
        }),
{
    let after = view.ended(connection, document, owner, required).0;
    if view.connected(connection) {
        one_is_added(view, after, after.effects.last());
        assert(is_handed(after.effects[view.effects.len() as int], connection, document) || is_lost(
            after.effects[view.effects.len() as int],
            connection,
        ));
    } else {
        nothing_is_added(view, after);
    }
}

/// A last frame that is required is handed over whatever the egress limits
/// say: it need only be within the frame size, and the writer be there.
pub proof fn required_frames_are_handed_over(view: ServerView, connection: ConnectionId, document: JsonView, owner: CapacityPermit)
    requires
        view.connected(connection),
        view.writer_open(connection),
        json_bytes(document).len() <= view.limits.frame_bytes,
    ensures
        ({
            let (after, sent) = view.ended(connection, document, owner, true);
            &&& sent
            &&& after.effects.len() == view.effects.len() + 1
            &&& is_handed(after.effects.last(), connection, document)
        }),
{
}

/// An event that everyone is sent never costs a connection that is owed
/// frames, nor the place of a frame that it is owed.
pub proof fn owed_frames_come_first(view: ServerView, connection: ConnectionId, name: Seq<char>, payload: JsonView)
    requires
        view.owes_delivery(connection),
    ensures
        ({
            let after = view.lifecycle_event_sent(connection, name, payload);
            &&& after.connections == view.connections
            &&& after.waiters == view.waiters
            &&& forall|i: int| view.effects.len() <= i < after.effects.len() ==> !is_lost(#[trigger] after.effects[i], connection)
            &&& !view.has_headroom(connection) ==> after == view
        }),
{
}

pub(crate) proof fn closing_reaches(view: ServerView, connection: ConnectionId)
    ensures
        only_adds_effects(view, view.closed(connection)),
        view.connected(connection) ==> forall|id: Seq<char>| #[trigger] answered_or_lost(view, view.closed(connection), connection, id),
        forall|c: ConnectionId| c != connection && view.connected(c) ==> #[trigger] view.closed(connection).connected(c),
{
    let after = view.closed(connection);
    if view.connected(connection) {
        one_is_added(view, after, after.effects.last());
        assert(is_lost(after.effects[view.effects.len() as int], connection));
        let at = connection_place(view.connections, connection);
        connections_are_found(view.connections, connection);
        assert forall|c: ConnectionId| c != connection && view.connected(c) implies #[trigger] after.connected(c) by {
            connections_are_found(view.connections, c);
            connections_are_found(after.connections, c);
            let p = connection_place(view.connections, c);
            assert(after.connections[if p < at { p } else { p - 1 }] == view.connections[p]);
        }
    } else {
        nothing_is_added(view, after);
    }
}

// ---------------------------------------------------------------------------
// At once

proof fn results_are_responses(id: Seq<char>, result: JsonView)
    ensures
        is_response(result_message(id, result), id),
{
}

proof fn errors_are_responses(id: Seq<char>, code: Seq<char>, message: Seq<char>)
    ensures
        is_response(error_message(id, code, message), id),
{
}

proof fn results_answer(view: ServerView, connection: ConnectionId, id: Seq<char>, result: JsonView)
    requires
        view.connected(connection),
    ensures
        answered_or_lost(view, view.result_sent(connection, id, result).0, connection, id),
        only_adds_effects(view, view.result_sent(connection, id, result).0),
        view.result_sent(connection, id, result).0.connections == view.connections,
{
    sending_reaches(view, connection, result_message(id, result));
    results_are_responses(id, result);
    told_is_answered(view, view.result_sent(connection, id, result).0, connection, result_message(id, result), id);
}

proof fn errors_answer(view: ServerView, connection: ConnectionId, id: Seq<char>, code: Seq<char>, message: Seq<char>)
    requires
        view.connected(connection),
    ensures
        answered_or_lost(view, view.error_sent(connection, id, code, message), connection, id),
        only_adds_effects(view, view.error_sent(connection, id, code, message)),
        view.error_sent(connection, id, code, message).connections == view.connections,
{
    sending_reaches(view, connection, error_message(id, code, message));
    errors_are_responses(id, code, message);
    told_is_answered(view, view.error_sent(connection, id, code, message), connection, error_message(id, code, message), id);
}

/// The request waits.
pub open spec fn now_waits(view: ServerView, connection: ConnectionId, id: Seq<char>) -> bool {
    exists|i: int|
        0 <= i < view.waiters.len() && (#[trigger] view.waiters[i]).connection == connection && view.waiters[i].request_id == id
}

proof fn cold_requests_wait(view: ServerView, waiter: WaiterView, now: Duration)
    requires
        view.connected(waiter.connection),
    ensures
        ({
            let after = view.waiting(waiter, now);
            answered_or_lost(view, after, waiter.connection, waiter.request_id) || now_waits(after, waiter.connection, waiter.request_id)
        }),
{
    if view.can_wait(waiter.project_id) {
        let waiting = view.with_waiter(waiter);
        asking_starts_runs(waiting, waiter.project_id, now);
        let after = view.waiting(waiter, now);
        assert(after.waiters[view.waiters.len() as int] == waiter);
    } else {
        closing_reaches(view, waiter.connection);
        assert(answered_or_lost(view, view.closed(waiter.connection), waiter.connection, waiter.request_id));
    }
}

proof fn subscriptions_are_answered(view: ServerView, connection: ConnectionId, id: Seq<char>, params: JsonView, now: Duration)
    requires
        view.connected(connection),
    ensures
        ({
            let after = view.subscribed(connection, id, params, now);
            answered_or_lost(view, after, connection, id) || now_waits(after, connection, id)
        }),
{
    match view.selected(params) {
        Err(refusal) => {
            errors_answer(view, connection, id, refusal.code, refusal.message);
        },
        Ok(project) => {
            let subscription = subscription_id(connection, view.next_subscription);
            let numbered = ServerView { next_subscription: (view.next_subscription + 1) as u64, ..view };
            nothing_is_added(view, numbered);
            if !numbered.can_subscribe(connection) {
                let closed = numbered.closed(connection);
                closing_reaches(numbered, connection);
                nothing_is_added(closed, closed);
                assert(answered_or_lost(numbered, closed, connection, id));
                answers_last(view, numbered, closed, closed, connection, id);
            } else {
                let entry = SubscriptionView { id: subscription, connection, project_id: project, returned: false };
                let registered = numbered.with_subscription(entry);
                nothing_is_added(view, registered);
                let after = view.subscribed(connection, id, params, now);
                match registered.cached_projection(project) {
                    Some(projection) => {
                        let result = subscription_result(subscription, projection);
                        results_answer(registered, connection, id, result);
                        let sent = registered.result_sent(connection, id, result).0;
                        nothing_is_added(sent, after);
                        answers_last(view, registered, sent, after, connection, id);
                    },
                    None => {
                        let waiter = WaiterView {
                            project_id: project,
                            connection,
                            request_id: id,
                            kind: WaitKindView::Subscribe(subscription),
                        };
                        cold_requests_wait(registered, waiter, now);
                        if answered_or_lost(registered, after, connection, id) {
                            nothing_is_added(after, after);
                            answers_last(view, registered, after, after, connection, id);
                        }
                    },
                }
            }
        },
    }
}

/// The id under which a frame is answered.
pub open spec fn answer_id(parsed: Result<JsonView, Seq<char>>) -> Seq<char> {
    match parsed {
        Ok(json) => match read_envelope(json) {
            Some(EnvelopeView::Request { version, id, method, params }) => id,
            _ => match json_field(json, "id"@) {
                Some(JsonView::Text(id)) => id,
                _ => ""@,
            },
        },
        Err(_) => ""@,
    }
}

/// Whatever a client sends, it is answered under the id that it sent, or it
/// waits under that id, or its connection ends. No frame is passed over.
pub proof fn no_frame_is_passed_over(view: ServerView, connection: ConnectionId, parsed: Result<JsonView, Seq<char>>, now: Duration)
    requires
        view.connected(connection),
    ensures
        ({
            let after = view.frame_handled(connection, parsed, now);
            answered_or_lost(view, after, connection, answer_id(parsed)) || now_waits(after, connection, answer_id(parsed))
        }),
{
    let request = match parsed {
        Ok(json) => read_envelope(json),
        Err(_) => None,
    };
    match request {
        Some(EnvelopeView::Request { version, id, method, params }) => {
            if version != crate::envelope::PROTOCOL_VERSION {
                let code = "unsupported_version"@;
                let message = "unsupported protocol major version"@;
                let sent = view.error_sent(connection, id, code, message);
                errors_answer(view, connection, id, code, message);
                closing_reaches(sent, connection);
                nothing_is_added(view, view);
                answers_last(view, view, sent, sent.closed(connection), connection, id);
            } else {
                match method {
                    MethodView::ServerHello => {
                        results_answer(view, connection, id, crate::server::request::hello_result(view.server_version));
                        errors_answer(view, connection, id, "invalid_params"@, "params must be an object"@);
                    },
                    MethodView::ProjectList => {
                        results_answer(view, connection, id, crate::server::request::list_result(view.projects));
                        errors_answer(view, connection, id, "invalid_params"@, "params must be an object"@);
                    },
                    MethodView::SnapshotGet => match view.selected(params) {
                        Err(refusal) => {
                            errors_answer(view, connection, id, refusal.code, refusal.message);
                        },
                        Ok(project) => match view.cached_projection(project) {
                            Some(projection) => {
                                results_answer(view, connection, id, crate::project_json::projection_json(projection));
                            },
                            None => {
                                cold_requests_wait(
                                    view,
                                    WaiterView { project_id: project, connection, request_id: id, kind: WaitKindView::Get },
                                    now,
                                );
                            },
                        },
                    },
                    MethodView::SnapshotSubscribe => {
                        subscriptions_are_answered(view, connection, id, params, now);
                    },
                    MethodView::SnapshotUnsubscribe => match json_field(params, "subscriptionId"@) {
                        Some(JsonView::Text(subscription)) => {
                            if view.owns_subscription(connection, subscription) {
                                let gone = view.without_subscription(subscription);
                                let result = crate::server::request::unsubscribe_result();
                                let sent = gone.result_sent(connection, id, result).0;
                                nothing_is_added(view, gone);
                                results_answer(gone, connection, id, result);
                                nothing_is_added(sent, sent);
                                answers_last(view, gone, sent, sent, connection, id);
                            } else {
                                errors_answer(
                                    view,
                                    connection,
                                    id,
                                    "unknown_subscription"@,
                                    "subscription is not owned by this connection"@,
                                );
                            }
                        },
                        _ => {
                            errors_answer(view, connection, id, "invalid_params"@, "subscriptionId is required"@);
                        },
                    },
                    MethodView::Unknown(_) => {
                        errors_answer(view, connection, id, "unknown_method"@, "unknown request method"@);
                    },
                }
            }
        },
        _ => {
            errors_answer(view, connection, answer_id(parsed), "invalid_request"@, "expected request envelope"@);
        },
    }
}

// ---------------------------------------------------------------------------
// At the end of a run

/// Everyone of the list who was there is answered or lost.
spec fn all_answered_or_lost(a: ServerView, b: ServerView, list: Seq<WaiterView>) -> bool {
    forall|i: int|
        0 <= i < list.len() && a.connected((#[trigger] list[i]).connection) ==> answered_or_lost(a, b, list[i].connection, list[i].request_id)
}

/// Connections that are there no more were brought to their end.
spec fn missing_are_lost(a: ServerView, b: ServerView) -> bool {
    forall|c: ConnectionId, id: Seq<char>|
        a.connected(c) && !b.connected(c) ==> #[trigger] answered_or_lost(a, b, c, id)
}

proof fn answering_one_reaches(view: ServerView, waiter: WaiterView, projection: Option<ProjectionView>, message: Seq<char>, too_large: bool)
    ensures
        ({
            let after = view.waiter_answered(waiter, projection, message, too_large);
            &&& only_adds_effects(view, after)
            &&& view.connected(waiter.connection) ==> answered_or_lost(view, after, waiter.connection, waiter.request_id)
            &&& missing_are_lost(view, after)
        }),
{
    let c = waiter.connection;
    let id = waiter.request_id;
    let after = view.waiter_answered(waiter, projection, message, too_large);
    if !view.connected(c) {
        nothing_is_added(view, after);
    } else {
        match projection {
            Some(projection) => {
                let result = match waiter.kind {
                    WaitKindView::Get => crate::project_json::projection_json(projection),
                    WaitKindView::Subscribe(subscription) => subscription_result(subscription, projection),
                };
                let document = result_message(id, result);
                let sent = view.ended(c, document, waiter_permit(), false).0;
                ending_reaches(view, c, document, waiter_permit(), false);
                results_are_responses(id, result);
                told_is_answered(view, sent, c, document, id);
                nothing_is_added(view, view);
                nothing_is_added(sent, after);
                additions_add_up(view, sent, after);
                answers_last(view, view, sent, after, c, id);
            },
            None => {
                let unsubscribed = match waiter.kind {
                    WaitKindView::Get => view,
                    WaitKindView::Subscribe(subscription) => view.without_subscription(subscription),
                };
                nothing_is_added(view, unsubscribed);
                if too_large {
                    let closed = unsubscribed.closed(c);
                    closing_reaches(unsubscribed, c);
                    nothing_is_added(closed, after);
                    additions_add_up(view, unsubscribed, closed);
                    additions_add_up(view, closed, after);
                    assert(answered_or_lost(unsubscribed, closed, c, id));
                    answers_last(view, unsubscribed, closed, after, c, id);
                    assert forall|other: ConnectionId, any: Seq<char>|
                        view.connected(other) && !after.connected(other) implies #[trigger] answered_or_lost(view, after, other, any) by {
                        assert(unsubscribed.connected(other));
                        assert(!closed.connected(other));
                        assert(other == c);
                        assert(answered_or_lost(unsubscribed, closed, c, any));
                        answers_last(view, unsubscribed, closed, after, c, any);
                    }
                } else {
                    let document = error_message(id, "unavailable"@, message);
                    ending_reaches(unsubscribed, c, document, waiter_permit(), true);
                    errors_are_responses(id, "unavailable"@, message);
                    told_is_answered(unsubscribed, after, c, document, id);
                    nothing_is_added(after, after);
                    additions_add_up(view, unsubscribed, after);
                    answers_last(view, unsubscribed, after, after, c, id);
                }
            },
        }
    }
}

proof fn answering_reaches_all(view: ServerView, list: Seq<WaiterView>, projection: Option<ProjectionView>, message: Seq<char>, too_large: bool)
    ensures
        ({
            let after = view.waiters_answered_from(list, projection, message, too_large);
            &&& only_adds_effects(view, after)
            &&& all_answered_or_lost(view, after, list)
            &&& missing_are_lost(view, after)
        }),
    decreases list.len(),
{
    let after = view.waiters_answered_from(list, projection, message, too_large);
    if list.len() == 0 {
        nothing_is_added(view, after);
    } else {
        let shorter = list.drop_last();
        let waiter = list.last();
        answering_reaches_all(view, shorter, projection, message, too_large);
        let before = view.waiters_answered_from(shorter, projection, message, too_large);
        answering_one_reaches(before, waiter, projection, message, too_large);
        additions_add_up(view, before, after);
        nothing_is_added(view, view);
        nothing_is_added(after, after);
        assert forall|i: int| 0 <= i < list.len() && view.connected((#[trigger] list[i]).connection) implies answered_or_lost(
            view,
            after,
            list[i].connection,
            list[i].request_id,
        ) by {
            let c = list[i].connection;
            let id = list[i].request_id;
            if i < shorter.len() {
                assert(shorter[i] == list[i]);
                answers_last(view, view, before, after, c, id);
            } else if before.connected(c) {
                answers_last(view, before, after, after, c, id);
            } else {
                assert(answered_or_lost(view, before, c, id));
                answers_last(view, view, before, after, c, id);
            }
        }
        assert forall|c: ConnectionId, id: Seq<char>| view.connected(c) && !after.connected(c) implies #[trigger] answered_or_lost(
            view,
            after,
            c,
            id,
        ) by {
            if before.connected(c) {
                assert(answered_or_lost(before, after, c, id));
                answers_last(view, before, after, after, c, id);
            } else {
                assert(answered_or_lost(view, before, c, id));
                answers_last(view, view, before, after, c, id);
            }
        }
    }
}

/// The end of the command that a request waits for answers the request, or
/// costs its connection; only if the project is registered anew does the
/// request wait for the next command.
pub proof fn ends_of_runs_answer_everyone(view: ServerView, run: RunView, result: Result<SnapshotView, FailureView>, now: Duration, i: int)
    requires
        active_place(view.active, run.record.id) >= 0,
        same_run(view.active[active_place(view.active, run.record.id)], run),
        0 <= i < waiters_for(view.waiters, run.record.id).len(),
        view.connected(waiters_for(view.waiters, run.record.id)[i].connection),
    ensures
        ({
            let waiter = waiters_for(view.waiters, run.record.id)[i];
            let after = view.finished(run, result, now);
            ||| answered_or_lost(view, after, waiter.connection, waiter.request_id)
            ||| !view.is_current(run) && view.enabled_record(run.record.id) is Some && after.waiters == view.waiters
        }),
{
    let id = run.record.id;
    let list = waiters_for(view.waiters, id);
    let waiter = list[i];
    let idle = ServerView { active: view.active.remove(active_place(view.active, id)), ..view };
    let after = view.finished(run, result, now);
    if !idle.is_current(run) {
        let rested = idle.with_dirty(idle.dirty.ended(id, now));
        if rested.enabled_record(id) is Some {
            asking_starts_runs(rested, id, now);
        } else {
            let taken = rested.waiters_taken(id);
            nothing_is_added(view, taken);
            answering_reaches_all(taken, list, rested.cached_projection(id), rested.failure_message(id), false);
            assert(answered_or_lost(taken, after, list[i].connection, list[i].request_id));
            nothing_is_added(after, after);
            answers_last(view, taken, after, after, waiter.connection, waiter.request_id);
        }
    } else {
        let outcome = idle.judged(run, result);
        let had_good = idle.cached_projection(id) is Some;
        let too_large = outcome matches Err(FailureView::OutputTooLarge(_));
        let cached = idle.cached(id, outcome);
        let taken = cached.waiters_taken(id);
        nothing_is_added(view, taken);
        answering_reaches_all(taken, list, cached.cached_projection(id), cached.failure_message(id), too_large);
        let answered = cached.waiters_answered(id, too_large);
        assert(answered_or_lost(taken, answered, list[i].connection, list[i].request_id));
        telling_only_adds(answered, id, outcome, had_good);
        let told = answered.subscribers_told(id, outcome, had_good);
        nothing_is_added(told, after);
        additions_add_up(answered, told, after);
        answers_last(view, taken, answered, after, waiter.connection, waiter.request_id);
    }
}

// ---------------------------------------------------------------------------
// Those who follow a project

pub(crate) proof fn telling_reaches_all(view: ServerView, connections: Seq<ConnectionId>, name: Seq<char>, payload: JsonView)
    ensures
        ({
            let after = view.event_sent_to(connections, name, payload);
            &&& only_adds_effects(view, after)
            &&& after.connections == view.connections
            &&& forall|i: int|
                0 <= i < connections.len() && view.connected(#[trigger] connections[i]) ==> told_or_lost(
                    view,
                    after,
                    connections[i],
                    event_message(name, payload),
                )
        }),
    decreases connections.len(),
{
    let after = view.event_sent_to(connections, name, payload);
    let document = event_message(name, payload);
    if connections.len() == 0 {
        nothing_is_added(view, after);
    } else {
        let shorter = connections.drop_last();
        let before = view.event_sent_to(shorter, name, payload);
        telling_reaches_all(view, shorter, name, payload);
        if before.connected(connections.last()) {
            sending_reaches(before, connections.last(), document);
        } else {
            nothing_is_added(before, after);
        }
        additions_add_up(view, before, after);
        nothing_is_added(view, view);
        nothing_is_added(after, after);
        assert forall|i: int| 0 <= i < connections.len() && view.connected(#[trigger] connections[i]) implies told_or_lost(
            view,
            after,
            connections[i],
            document,
        ) by {
            if i < shorter.len() {
                assert(shorter[i] == connections[i]);
                what_is_told_lasts(view, view, before, after, connections[i], document);
            } else {
                what_is_told_lasts(view, before, after, after, connections[i], document);
            }
        }
    }
}

pub(crate) proof fn telling_only_adds(view: ServerView, id: Seq<char>, outcome: Result<crate::server::snapshots::KeptView, FailureView>, had_good: bool)
    ensures
        only_adds_effects(view, view.subscribers_told(id, outcome, had_good)),
{
    nothing_is_added(view, view);
    let list = subscribers(view.subscriptions, id);
    match outcome {
        Ok(_) => match view.cached_projection(id) {
            Some(projection) => {
                telling_reaches_all(view, list, "snapshot.replaced"@, replaced_payload(id, projection));
            },
            None => {},
        },
        Err(failure) => {
            telling_reaches_all(
                view,
                list,
                "snapshot.failed"@,
                failed_payload(id, failure_text(failure), failure_code(failure)),
            );
        },
    }
}

/// Everyone who follows a project is told of its new snapshot or of the
/// failure to take one, or loses the connection.
pub proof fn followers_are_told_or_lost(view: ServerView, id: Seq<char>, outcome: Result<crate::server::snapshots::KeptView, FailureView>, connection: ConnectionId)
    requires
        view.connected(connection),
        subscribers(view.subscriptions, id).contains(connection),
        outcome is Ok ==> view.cached_projection(id) is Some,
    ensures
        told_or_lost(
            view,
            view.subscribers_told(id, outcome, true),
            connection,
            match outcome {
                Ok(_) => event_message("snapshot.replaced"@, replaced_payload(id, view.cached_projection(id)->0)),
                Err(failure) => event_message(
                    "snapshot.failed"@,
                    failed_payload(id, failure_text(failure), failure_code(failure)),
                ),
            },
        ),
{
    let list = subscribers(view.subscriptions, id);
    let i = choose|i: int| 0 <= i < list.len() && list[i] == connection;
    assert(view.connected(list[i]));
    match outcome {
        Ok(_) => {
            telling_reaches_all(view, list, "snapshot.replaced"@, replaced_payload(id, view.cached_projection(id)->0));
        },
        Err(failure) => {
            telling_reaches_all(
                view,
                list,
                "snapshot.failed"@,
                failed_payload(id, failure_text(failure), failure_code(failure)),
            );
        },
    }
}

// ---------------------------------------------------------------------------
// At the end of a project, and of the daemon

proof fn refusing_reaches_all(view: ServerView, list: Seq<WaiterView>, message: Seq<char>)
    ensures
        ({
            let after = view.waiters_refused(list, message);
            &&& only_adds_effects(view, after)
            &&& after.connections == view.connections
            &&& all_answered_or_lost(view, after, list)
        }),
    decreases list.len(),
{
    let after = view.waiters_refused(list, message);
    if list.len() == 0 {
        nothing_is_added(view, after);
    } else {
        let shorter = list.drop_last();
        let waiter = list.last();
        let document = error_message(waiter.request_id, "unavailable"@, message);
        let before = view.waiters_refused(shorter, message);
        refusing_reaches_all(view, shorter, message);
        ending_reaches(before, waiter.connection, document, waiter_permit(), true);
        errors_are_responses(waiter.request_id, "unavailable"@, message);
        additions_add_up(view, before, after);
        nothing_is_added(view, view);
        nothing_is_added(after, after);
        assert forall|i: int| 0 <= i < list.len() && view.connected((#[trigger] list[i]).connection) implies answered_or_lost(
            view,
            after,
            list[i].connection,
            list[i].request_id,
        ) by {
            if i < shorter.len() {
                assert(shorter[i] == list[i]);
                answers_last(view, view, before, after, list[i].connection, list[i].request_id);
            } else {
                told_is_answered(before, after, waiter.connection, document, waiter.request_id);
                answers_last(view, before, after, after, list[i].connection, list[i].request_id);
            }
        }
    }
}

/// Everyone whose subscription ends is told, if they know of it.
spec fn all_told_or_lost(a: ServerView, b: ServerView, list: Seq<SubscriptionView>, reason: Seq<char>) -> bool {
    forall|i: int|
        0 <= i < list.len() && (#[trigger] list[i]).returned && a.connected(list[i].connection) ==> told_or_lost(
            a,
            b,
            list[i].connection,
            event_message("subscription.ended"@, ended_payload(list[i].id, reason)),
        )
}

proof fn ending_reaches_all(view: ServerView, list: Seq<SubscriptionView>, reason: Seq<char>)
    ensures
        ({
            let after = view.subscriptions_ended(list, reason);
            &&& only_adds_effects(view, after)
            &&& after.connections == view.connections
            &&& all_told_or_lost(view, after, list, reason)
        }),
    decreases list.len(),
{
    let after = view.subscriptions_ended(list, reason);
    if list.len() == 0 {
        nothing_is_added(view, after);
    } else {
        let shorter = list.drop_last();
        let last = list.last();
        let document = event_message("subscription.ended"@, ended_payload(last.id, reason));
        let before = view.subscriptions_ended(shorter, reason);
        ending_reaches_all(view, shorter, reason);
        if last.returned {
            ending_reaches(
                before,
                last.connection,
                document,
                crate::server::model::subscription_permit(last.connection),
                true,
            );
        } else {
            nothing_is_added(before, after);
        }
        additions_add_up(view, before, after);
        nothing_is_added(view, view);
        nothing_is_added(after, after);
        assert forall|i: int| 0 <= i < list.len() && (#[trigger] list[i]).returned && view.connected(list[i].connection) implies told_or_lost(
            view,
            after,
            list[i].connection,
            event_message("subscription.ended"@, ended_payload(list[i].id, reason)),
        ) by {
            if i < shorter.len() {
                assert(shorter[i] == list[i]);
                what_is_told_lasts(
                    view,
                    view,
                    before,
                    after,
                    list[i].connection,
                    event_message("subscription.ended"@, ended_payload(list[i].id, reason)),
                );
            } else {
                what_is_told_lasts(view, before, after, after, list[i].connection, document);
            }
        }
    }
}

/// Ending subscriptions takes nothing back, costs no connection its place in
/// the list, and tells every owner who is there and knows of one.
pub(crate) proof fn endings_reach_all(view: ServerView, list: Seq<SubscriptionView>, reason: Seq<char>)
    ensures
        ({
            let after = view.subscriptions_ended(list, reason);
            &&& only_adds_effects(view, after)
            &&& after.connections == view.connections
            &&& forall|i: int|
                0 <= i < list.len() && (#[trigger] list[i]).returned && view.connected(list[i].connection) ==> told_or_lost(
                    view,
                    after,
                    list[i].connection,
                    event_message("subscription.ended"@, ended_payload(list[i].id, reason)),
                )
        }),
{
    ending_reaches_all(view, list, reason);
}

/// A daemon that stops answers every request that waits, and tells everyone
/// whose subscription ends, or the connection is lost.
pub proof fn stopping_answers_everyone(view: ServerView)
    requires
        clients_sound(view),
    ensures
        forall|i: int|
            0 <= i < view.waiters.len() ==> answered_or_lost(
                view,
                view.stopping(),
                (#[trigger] view.waiters[i]).connection,
                view.waiters[i].request_id,
            ),
        forall|i: int|
            0 <= i < view.subscriptions.len() && (#[trigger] view.subscriptions[i]).returned ==> told_or_lost(
                view,
                view.stopping(),
                view.subscriptions[i].connection,
                event_message("subscription.ended"@, ended_payload(view.subscriptions[i].id, "shutdown"@)),
            ),
{
    let asked = view.all_cancelled(view.active);
    cancelling_only_asks(view, view.active);
    cancelling_only_adds(view, view.active);
    let start = ServerView { waiters: Seq::empty(), ..asked };
    let message = "snapshot unavailable because the daemon is shutting down"@;
    nothing_is_added(asked, start);
    additions_add_up(view, asked, start);
    refusing_only_sends(start, view.waiters, message);
    refusing_reaches_all(start, view.waiters, message);
    let refused = start.waiters_refused(view.waiters, message);
    let emptied = ServerView { subscriptions: Seq::empty(), ..refused };
    nothing_is_added(refused, emptied);
    ending_reaches_all(emptied, refused.subscriptions, "shutdown"@);
    let after = view.stopping();
    additions_add_up(refused, emptied, after);
    additions_add_up(view, start, refused);
    additions_add_up(view, refused, emptied);
    nothing_is_added(after, after);
    assert forall|i: int| 0 <= i < view.waiters.len() implies answered_or_lost(
        view,
        after,
        (#[trigger] view.waiters[i]).connection,
        view.waiters[i].request_id,
    ) by {
        assert(view.connected(view.waiters[i].connection));
        assert(start.connected(view.waiters[i].connection));
        answers_last(view, start, refused, after, view.waiters[i].connection, view.waiters[i].request_id);
    }
    assert forall|i: int| 0 <= i < view.subscriptions.len() && (#[trigger] view.subscriptions[i]).returned implies told_or_lost(
        view,
        after,
        view.subscriptions[i].connection,
        event_message("subscription.ended"@, ended_payload(view.subscriptions[i].id, "shutdown"@)),
    ) by {
        assert(view.connected(view.subscriptions[i].connection));
        assert(emptied.connected(view.subscriptions[i].connection));
        assert(refused.subscriptions[i] == view.subscriptions[i]);
        what_is_told_lasts(
            view,
            emptied,
            after,
            after,
            view.subscriptions[i].connection,
            event_message("subscription.ended"@, ended_payload(view.subscriptions[i].id, "shutdown"@)),
        );
    }
}

proof fn cancelling_only_adds(view: ServerView, runs: Seq<RunView>)
    ensures
        only_adds_effects(view, view.all_cancelled(runs)),
    decreases runs.len(),
{
    if runs.len() == 0 {
        nothing_is_added(view, view);
    } else {
        cancelling_only_adds(view, runs.drop_last());
        let before = view.all_cancelled(runs.drop_last());
        one_is_added(before, view.all_cancelled(runs), EffectView::Cancel { run: runs.last() });
        additions_add_up(view, before, view.all_cancelled(runs));
    }
}

/// Everyone of the list who was there is answered, lost or, with a plain
/// request for a project that lives on, waiting still.
spec fn all_settled(a: ServerView, b: ServerView, list: Seq<WaiterView>, restart_gets: bool) -> bool {
    forall|i: int|
        0 <= i < list.len() && a.connected((#[trigger] list[i]).connection) ==> answered_or_lost(
            a,
            b,
            list[i].connection,
            list[i].request_id,
        ) || (restart_gets && list[i].kind is Get && b.waiters.contains(list[i]))
}

proof fn displacing_reaches_all(view: ServerView, list: Seq<WaiterView>, restart_gets: bool)
    ensures
        ({
            let after = view.waiters_displaced(list, restart_gets);
            &&& only_adds_effects(view, after)
            &&& after.connections == view.connections
            &&& all_settled(view, after, list, restart_gets)
        }),
    decreases list.len(),
{
    let after = view.waiters_displaced(list, restart_gets);
    if list.len() == 0 {
        nothing_is_added(view, after);
    } else {
        let shorter = list.drop_last();
        let waiter = list.last();
        let before = view.waiters_displaced(shorter, restart_gets);
        displacing_reaches_all(view, shorter, restart_gets);
        let message = match waiter.kind {
            WaitKindView::Subscribe(_) => "subscription ended because the project was replaced"@,
            WaitKindView::Get => "snapshot unavailable because the project was removed, disabled, or replaced"@,
        };
        let document = error_message(waiter.request_id, "unavailable"@, message);
        let waits_on = waiter.kind is Get && restart_gets;
        if waits_on {
            nothing_is_added(before, after);
            assert(after.waiters[before.waiters.len() as int] == waiter);
        } else {
            ending_reaches(before, waiter.connection, document, waiter_permit(), true);
            errors_are_responses(waiter.request_id, "unavailable"@, message);
        }
        additions_add_up(view, before, after);
        nothing_is_added(view, view);
        nothing_is_added(after, after);
        assert forall|i: int| 0 <= i < list.len() && view.connected((#[trigger] list[i]).connection) implies answered_or_lost(
            view,
            after,
            list[i].connection,
            list[i].request_id,
        ) || (restart_gets && list[i].kind is Get && after.waiters.contains(list[i])) by {
            let c = list[i].connection;
            let id = list[i].request_id;
            if i < shorter.len() {
                assert(shorter[i] == list[i]);
                if answered_or_lost(view, before, c, id) {
                    answers_last(view, view, before, after, c, id);
                } else {
                    let k = choose|k: int| 0 <= k < before.waiters.len() && before.waiters[k] == list[i];
                    assert(after.waiters[k] == list[i]);
                }
            } else if !waits_on {
                told_is_answered(before, after, c, document, id);
                answers_last(view, before, after, after, c, id);
            }
        }
    }
}

/// When a project ends, everyone who follows it and knows of it is told, and
/// every request that waits for it is answered or waits on at its new place,
/// or the connection is lost.
pub proof fn ended_projects_tell_everyone(view: ServerView, project: Seq<char>, reason: Seq<char>, restart_gets: bool)
    ensures
        ({
            let after = view.project_ended(project, reason, restart_gets);
            let followers = subscriptions_for(view.subscriptions, project);
            let waiting = waiters_for(view.waiters, project);
            &&& forall|i: int|
                0 <= i < followers.len() && (#[trigger] followers[i]).returned && view.connected(followers[i].connection) ==> told_or_lost(
                    view,
                    after,
                    followers[i].connection,
                    event_message("subscription.ended"@, ended_payload(followers[i].id, reason)),
                )
            &&& forall|i: int|
                0 <= i < waiting.len() && view.connected((#[trigger] waiting[i]).connection) ==> answered_or_lost(
                    view,
                    after,
                    waiting[i].connection,
                    waiting[i].request_id,
                ) || (restart_gets && waiting[i].kind is Get && after.waiters.contains(waiting[i]))
        }),
{
    let taken = ServerView { subscriptions: subscriptions_beside(view.subscriptions, project), ..view };
    let followers = subscriptions_for(view.subscriptions, project);
    let waiting = waiters_for(view.waiters, project);
    nothing_is_added(view, taken);
    ending_only_sends(taken, followers, reason);
    ending_reaches_all(taken, followers, reason);
    let told = taken.subscriptions_ended(followers, reason);
    let left = told.waiters_taken(project);
    nothing_is_added(told, left);
    displacing_reaches_all(left, waiting, restart_gets);
    let after = view.project_ended(project, reason, restart_gets);
    additions_add_up(told, left, after);
    additions_add_up(view, taken, told);
    additions_add_up(view, told, left);
    nothing_is_added(after, after);
    assert forall|i: int| 0 <= i < followers.len() && (#[trigger] followers[i]).returned && view.connected(followers[i].connection) implies told_or_lost(
        view,
        after,
        followers[i].connection,
        event_message("subscription.ended"@, ended_payload(followers[i].id, reason)),
    ) by {
        assert(taken.connected(followers[i].connection));
        what_is_told_lasts(
            view,
            taken,
            told,
            after,
            followers[i].connection,
            event_message("subscription.ended"@, ended_payload(followers[i].id, reason)),
        );
    }
    assert forall|i: int| 0 <= i < waiting.len() && view.connected((#[trigger] waiting[i]).connection) implies answered_or_lost(
        view,
        after,
        waiting[i].connection,
        waiting[i].request_id,
    ) || (restart_gets && waiting[i].kind is Get && after.waiters.contains(waiting[i])) by {
        assert(left.connected(waiting[i].connection));
        if answered_or_lost(left, after, waiting[i].connection, waiting[i].request_id) {
            answers_last(view, left, after, after, waiting[i].connection, waiting[i].request_id);
        }
    }
}

/// The end of a project takes back nothing that was to be done outside, and
/// costs no connection its place in the list.
pub(crate) proof fn closing_a_project_only_adds(view: ServerView, id: Seq<char>, restart_gets: bool)
    ensures
        only_adds_effects(view, view.project_closed(id, restart_gets)),
        view.project_closed(id, restart_gets).connections == view.connections,
{
    let start = ServerView { deferred: texts_except(view.deferred, id), ..view };
    let reason = "project_removed"@;
    let taken = ServerView { subscriptions: subscriptions_beside(start.subscriptions, id), ..start };
    let followers = subscriptions_for(start.subscriptions, id);
    ending_only_sends(taken, followers, reason);
    ending_reaches_all(taken, followers, reason);
    let told = taken.subscriptions_ended(followers, reason);
    let left = told.waiters_taken(id);
    displacing_reaches_all(left, waiters_for(told.waiters, id), restart_gets);
    let displaced = start.project_ended(id, reason, restart_gets);
    let cancelled = displaced.run_cancelled(id);
    let after = view.project_closed(id, restart_gets);
    nothing_is_added(view, taken);
    nothing_is_added(told, left);
    additions_add_up(view, taken, told);
    additions_add_up(view, told, left);
    additions_add_up(view, left, displaced);
    if active_place(displaced.active, id) >= 0 {
        one_is_added(displaced, cancelled, cancelled.effects.last());
    } else {
        nothing_is_added(displaced, cancelled);
    }
    additions_add_up(view, displaced, cancelled);
    nothing_is_added(cancelled, after);
    additions_add_up(view, cancelled, after);
}

} // verus!
