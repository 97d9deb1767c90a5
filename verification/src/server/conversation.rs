//! What clients can rely on: how requests are answered, and that nobody else
//! is affected.

use crate::envelope::{envelope_reads_back, error_message, read_envelope, result_message, EnvelopeView, MethodView, PROTOCOL_VERSION};
use crate::json::{json_bytes, json_field, JsonView};
use crate::lifecycle::{hello_json, hello_reply, own_greeting_is_accepted, HelloReply};
use crate::project_json::{projection_json, projection_reads_back, read_projection};
use crate::protocol::{fits, outbound_fits, CapacityPermit, ConnectionId, CounterName, OutboundView, WriterMessageView};
use crate::server::accounts::subscription_place_in_range;
use crate::server::membership::{clients_sound, closing_leaves_nothing};
use crate::server::model::{subscribers, subscription_id, subscription_place, subscriptions_off, waiters_off,
    EffectView, ServerView, SubscriptionView, WaitKindView, WaiterView};
use crate::server::registry_watch::watching_place;
use crate::server::request::{hello_result, RefusalView};
use crate::server::runs::{asking_starts_runs, only_starts_runs};
use crate::server::snapshots::{subscription_result, KeptView};
use crate::state::{projected, projects_are_independent};
use crate::time::Duration;
use vstd::prelude::*;

verus! {

// ---------------------------------------------------------------------------
// Refusals

/// Why a request is refused, if it is.
pub open spec fn refusal_of(view: ServerView, connection: ConnectionId, version: u64, method: MethodView, params: JsonView) -> Option<RefusalView> {
    if version != PROTOCOL_VERSION {
        Some(RefusalView { code: "unsupported_version"@, message: "unsupported protocol major version"@ })
    } else {
        match method {
            MethodView::Unknown(_) => Some(RefusalView { code: "unknown_method"@, message: "unknown request method"@ }),
            MethodView::SnapshotGet | MethodView::SnapshotSubscribe => match view.selected(params) {
                Err(refusal) => Some(refusal),
                Ok(_) => None,
            },
            MethodView::SnapshotUnsubscribe => match json_field(params, "subscriptionId"@) {
                Some(JsonView::Text(subscription)) => if view.owns_subscription(connection, subscription) {
                    None
                } else {
                    Some(
                        RefusalView {
                            code: "unknown_subscription"@,
                            message: "subscription is not owned by this connection"@,
                        },
                    )
                },
                _ => Some(RefusalView { code: "invalid_params"@, message: "subscriptionId is required"@ }),
            },
            _ => if params is Object {
                None
            } else {
                Some(RefusalView { code: "invalid_params"@, message: "params must be an object"@ })
            },
        }
    }
}

/// The connection can take a frame now.
pub open spec fn can_take(view: ServerView, connection: ConnectionId, frame: JsonView) -> bool {
    let bytes = json_bytes(frame);
    &&& view.connected(connection)
    &&& view.writer_open(connection)
    &&& bytes.len() <= view.limits.frame_bytes
    &&& outbound_fits(view.ledger, connection, bytes.len() as usize, view.limits)
    &&& fits(view.ledger, CounterName::WriterFrames(connection), 1, view.limits.egress_frames)
}

/// A frame on its way to a connection.
pub open spec fn delivery(connection: ConnectionId, frame: JsonView) -> EffectView {
    EffectView::Deliver {
        connection,
        message: WriterMessageView::Frame(
            OutboundView {
                bytes: json_bytes(frame),
                connection,
                writer_slot: Some(CapacityPermit { primary: CounterName::WriterFrames(connection), secondary: None }),
            },
        ),
    }
}

/// A request that is refused is answered under its own id with the reason, if
/// the connection can take the answer, and changes nothing else; only another
/// protocol version also costs the connection.
pub proof fn refused_requests_are_answered(view: ServerView, connection: ConnectionId, version: u64, id: Seq<char>, method: MethodView, params: JsonView, now: Duration)
    requires
        refusal_of(view, connection, version, method, params) is Some,
        can_take(
            view,
            connection,
            error_message(
                id,
                (refusal_of(view, connection, version, method, params)->0).code,
                (refusal_of(view, connection, version, method, params)->0).message,
            ),
        ),
    ensures
        ({
            let refusal = refusal_of(view, connection, version, method, params)->0;
            let answer = error_message(id, refusal.code, refusal.message);
            let next = view.requested(connection, version, id, method, params, now);
            let answered = ServerView {
                effects: view.effects.push(delivery(connection, answer)),
                ledger: view.error_sent(connection, id, refusal.code, refusal.message).ledger,
                ..view
            };
            next == if version == PROTOCOL_VERSION {
                answered
            } else {
                answered.closed(connection)
            }
        }),
{
}

/// A frame that is no request is answered under the id that it carries, if
/// the connection can take the answer, and changes nothing else.
pub proof fn malformed_frames_are_answered(view: ServerView, connection: ConnectionId, json: JsonView, id: Seq<char>, now: Duration)
    requires
        !(read_envelope(json) matches Some(EnvelopeView::Request { version, id, method, params })),
        json_field(json, "id"@) == Some(JsonView::Text(id)),
        can_take(view, connection, error_message(id, "invalid_request"@, "expected request envelope"@)),
    ensures
        ({
            let answer = error_message(id, "invalid_request"@, "expected request envelope"@);
            let next = view.frame_handled(connection, Ok(json), now);
            next == (ServerView {
                effects: view.effects.push(delivery(connection, answer)),
                ledger: next.ledger,
                ..view
            })
        }),
{
}

// ---------------------------------------------------------------------------
// Snapshots

/// A snapshot that was kept is what a request for it is answered with, marked
/// as fresh, and a client reads from the answer exactly the snapshot that was
/// taken.
pub proof fn kept_snapshots_are_served(view: ServerView, project: Seq<char>, kept: KeptView, connection: ConnectionId, id: Seq<char>, params: JsonView, now: Duration)
    requires
        view.caches.dom().contains(project),
        view.selected(params) == Ok::<Seq<char>, RefusalView>(project),
    ensures
        ({
            let cached = view.cached(project, Ok(kept));
            let projection = projected(view.caches[project].record, kept.snapshot, Seq::empty());
            &&& cached.snapshot_gotten(connection, id, params, now) == cached.result_sent(
                connection,
                id,
                projection_json(projection),
            ).0
            &&& read_projection(projection_json(projection)) == Some(projection)
            &&& projection.snapshot == kept.snapshot
        }),
{
    let cached = view.cached(project, Ok(kept));
    let projection = projected(view.caches[project].record, kept.snapshot, Seq::empty());
    projection_reads_back(projection);
    assert(cached.selected(params) == view.selected(params));
    assert(cached.cached_projection(project) == Some(projection));
}

/// The daemon's greeting is recognised by those who look for a running one.
pub proof fn a_running_daemon_is_recognised(version: Seq<char>)
    ensures
        hello_reply(result_message("lifecycle"@, hello_result(version))) == HelloReply::Accepted,
{
    let fields = hello_result(version)->Object_0;
    reveal_strlit("protocolVersion");
    reveal_strlit("serverVersion");
    reveal_strlit("snapshotSchemaMin");
    reveal_strlit("snapshotSchemaMax");
    assert("protocolVersion"@.len() == 15);
    assert("serverVersion"@.len() == 13);
    assert("snapshotSchemaMin"@.len() == 17);
    assert("snapshotSchemaMax"@.len() == 17);
    own_greeting_is_accepted(fields);
}

/// Whoever probes the daemon is answered with its greeting.
pub proof fn a_probe_is_greeted(view: ServerView, connection: ConnectionId, now: Duration)
    ensures
        view.frame_handled(connection, Ok(hello_json()), now) == view.result_sent(
            connection,
            "lifecycle"@,
            hello_result(view.server_version),
        ).0,
{
    let probe = EnvelopeView::Request {
        version: PROTOCOL_VERSION,
        id: "lifecycle"@,
        method: MethodView::ServerHello,
        params: JsonView::Object(Map::empty()),
    };
    envelope_reads_back(probe);
}

/// Those who follow a project and know it are told about it once each, and
/// nobody else is.
pub proof fn followers_are_told_once(list: Seq<SubscriptionView>, project: Seq<char>, connection: ConnectionId)
    ensures
        subscribers(list, project).no_duplicates(),
        subscribers(list, project).contains(connection) <==> exists|i: int|
            0 <= i < list.len() && (#[trigger] list[i]).returned && list[i].project_id == project && list[i].connection == connection,
    decreases list.len(),
{
    if list.len() > 0 {
        let shorter = list.drop_last();
        followers_are_told_once(shorter, project, connection);
        let rest = subscribers(shorter, project);
        let all = subscribers(list, project);
        let last = list.last();
        if exists|i: int|
            0 <= i < list.len() && (#[trigger] list[i]).returned && list[i].project_id == project && list[i].connection == connection {
            let i = choose|i: int|
                0 <= i < list.len() && (#[trigger] list[i]).returned && list[i].project_id == project && list[i].connection == connection;
            if i < shorter.len() {
                assert(shorter[i] == list[i]);
                assert(rest.contains(connection));
                let k = choose|k: int| 0 <= k < rest.len() && rest[k] == connection;
                assert(all[k] == connection);
            } else {
                if rest.contains(connection) {
                    let k = choose|k: int| 0 <= k < rest.len() && rest[k] == connection;
                    assert(all[k] == connection);
                } else {
                    assert(all[all.len() - 1] == connection);
                }
            }
        }
        if all.contains(connection) {
            let k = choose|k: int| 0 <= k < all.len() && all[k] == connection;
            if k < rest.len() {
                assert(rest[k] == connection);
                let i = choose|i: int|
                    0 <= i < shorter.len() && (#[trigger] shorter[i]).returned && shorter[i].project_id == project
                        && shorter[i].connection == connection;
                assert(list[i] == shorter[i]);
            } else {
                assert(list[list.len() - 1] == last);
            }
        }
    }
}

/// A change on disk concerns one project at most: every other one's debounce
/// state is as it was.
pub proof fn changes_concern_one_project(view: ServerView, path: Seq<char>, now: Duration, other: Seq<char>)
    requires
        watching_place(view.projects, path) >= 0 ==> view.projects[watching_place(view.projects, path)].id != other,
    ensures
        ({
            let next = view.path_changed(path, now);
            &&& next.dirty.projects.dom().contains(other) == view.dirty.projects.dom().contains(other)
            &&& view.dirty.projects.dom().contains(other) ==> next.dirty.projects[other] == view.dirty.projects[other]
        }),
{
    let at = watching_place(view.projects, path);
    if at >= 0 {
        projects_are_independent(view.dirty, view.projects[at].id, other, now);
    }
}

// ---------------------------------------------------------------------------
// Isolation

/// The effect is for the connection, or for no connection.
pub open spec fn concerns(effect: EffectView, connection: ConnectionId) -> bool {
    match effect {
        EffectView::Deliver { connection: c, .. } => c == connection,
        EffectView::Shutdown { connection: c } => c == connection,
        EffectView::Close { connection: c, .. } => c == connection,
        EffectView::Drop { connection: c } => c == connection,
        EffectView::Launch { .. } => true,
        EffectView::Cancel { .. } => false,
    }
}

/// From `a` to `b` only one connection was affected: no other one got or lost
/// anything, and nothing is to be done to another one.
pub open spec fn affects_only(a: ServerView, b: ServerView, connection: ConnectionId) -> bool {
    &&& b.effects.len() >= a.effects.len()
    &&& b.effects.take(a.effects.len() as int) == a.effects
    &&& forall|i: int| a.effects.len() <= i < b.effects.len() ==> concerns(#[trigger] b.effects[i], connection)
    &&& subscriptions_off(b.subscriptions, connection) == subscriptions_off(a.subscriptions, connection)
    &&& waiters_off(b.waiters, connection) == waiters_off(a.waiters, connection)
    &&& forall|c: ConnectionId| c != connection ==> b.connected(c) == #[trigger] a.connected(c)
    &&& b.caches == a.caches
    &&& b.projects == a.projects
}

proof fn step_by_step(a: ServerView, b: ServerView, c: ServerView, connection: ConnectionId)
    requires
        affects_only(a, b, connection),
        affects_only(b, c, connection),
    ensures
        affects_only(a, c, connection),
{
    assert(c.effects.take(a.effects.len() as int) =~= a.effects) by {
        assert(c.effects.take(b.effects.len() as int).take(a.effects.len() as int) =~= c.effects.take(a.effects.len() as int));
    }
    assert forall|i: int| a.effects.len() <= i < c.effects.len() implies concerns(#[trigger] c.effects[i], connection) by {
        if i < b.effects.len() {
            assert(c.effects.take(b.effects.len() as int)[i] == c.effects[i]);
            assert(concerns(b.effects[i], connection));
        }
    }
    assert forall|d: ConnectionId| d != connection implies c.connected(d) == #[trigger] a.connected(d) by {
        assert(b.connected(d) == a.connected(d));
        assert(c.connected(d) == b.connected(d));
    }
}

proof fn sending_is_isolated(view: ServerView, connection: ConnectionId, frame: JsonView, close_on_failure: bool)
    ensures
        affects_only(view, view.queued(connection, frame, close_on_failure).0, connection),
{
    let next = view.queued(connection, frame, close_on_failure).0;
    assert(next.effects.take(view.effects.len() as int) =~= view.effects);
}

proof fn pushed_and_removed_subscriptions(list: Seq<SubscriptionView>, at: int, connection: ConnectionId)
    requires
        0 <= at < list.len(),
        list[at].connection == connection,
    ensures
        subscriptions_off(list.remove(at), connection) == subscriptions_off(list, connection),
        subscriptions_off(list.update(at, SubscriptionView { returned: true, ..list[at] }), connection)
            == subscriptions_off(list, connection),
    decreases list.len(),
{
    let known = SubscriptionView { returned: true, ..list[at] };
    if at == list.len() - 1 {
        assert(list.remove(at) =~= list.drop_last());
        assert(list.update(at, known).drop_last() =~= list.drop_last());
    } else {
        pushed_and_removed_subscriptions(list.drop_last(), at, connection);
        assert(list.remove(at).drop_last() =~= list.drop_last().remove(at));
        assert(list.remove(at).last() == list.last());
        assert(list.update(at, known).drop_last() =~= list.drop_last().update(at, known));
        assert(list.update(at, known).last() == list.last());
    }
}

proof fn own_subscriptions_are_isolated(view: ServerView, id: Seq<char>, connection: ConnectionId)
    requires
        subscription_place(view.subscriptions, id) >= 0 ==> view.subscriptions[subscription_place(view.subscriptions, id)].connection
            == connection,
    ensures
        affects_only(view, view.without_subscription(id), connection),
        affects_only(view, view.subscription_returned(id), connection),
{
    let at = subscription_place(view.subscriptions, id);
    subscription_place_in_range(view.subscriptions, id);
    assert(view.effects.take(view.effects.len() as int) =~= view.effects);
    if at >= 0 {
        pushed_and_removed_subscriptions(view.subscriptions, at, connection);
    }
}

proof fn off_is_off(subscriptions: Seq<SubscriptionView>, waiters: Seq<WaiterView>, connection: ConnectionId)
    ensures
        subscriptions_off(subscriptions_off(subscriptions, connection), connection) == subscriptions_off(subscriptions, connection),
        waiters_off(waiters_off(waiters, connection), connection) == waiters_off(waiters, connection),
    decreases subscriptions.len() + waiters.len(),
{
    if subscriptions.len() > 0 {
        off_is_off(subscriptions.drop_last(), Seq::empty(), connection);
        let rest = subscriptions_off(subscriptions.drop_last(), connection);
        assert(rest.push(subscriptions.last()).drop_last() =~= rest);
    }
    if waiters.len() > 0 {
        off_is_off(Seq::empty(), waiters.drop_last(), connection);
        let rest = waiters_off(waiters.drop_last(), connection);
        assert(rest.push(waiters.last()).drop_last() =~= rest);
    }
}

proof fn closing_is_isolated(view: ServerView, connection: ConnectionId)
    requires
        clients_sound(view),
    ensures
        affects_only(view, view.closed(connection), connection),
{
    closing_leaves_nothing(view, connection);
    off_is_off(view.subscriptions, view.waiters, connection);
    let next = view.closed(connection);
    assert(next.effects.take(view.effects.len() as int) =~= view.effects);
}

proof fn starting_is_isolated(a: ServerView, b: ServerView, connection: ConnectionId)
    requires
        only_starts_runs(a, b),
    ensures
        affects_only(a, b, connection),
{
    assert forall|i: int| a.effects.len() <= i < b.effects.len() implies concerns(#[trigger] b.effects[i], connection) by {
        let k = a.active.len() + (i - a.effects.len());
        assert(b.effects[a.effects.len() + (k - a.active.len())] == (EffectView::Launch { run: b.active[k] }));
    }
}

proof fn waiting_is_isolated(view: ServerView, waiter: WaiterView, now: Duration)
    requires
        clients_sound(view),
    ensures
        affects_only(view, view.waiting(waiter, now), waiter.connection),
{
    let c = waiter.connection;
    if view.can_wait(waiter.project_id) {
        let waiting = view.with_waiter(waiter);
        assert(waiting.waiters.drop_last() =~= view.waiters);
        assert(waiting.effects.take(view.effects.len() as int) =~= view.effects);
        assert(affects_only(view, waiting, c));
        asking_starts_runs(waiting, waiter.project_id, now);
        starting_is_isolated(waiting, waiting.started(waiter.project_id, now), c);
        step_by_step(view, waiting, waiting.started(waiter.project_id, now), c);
    } else {
        closing_is_isolated(view, c);
    }
}

proof fn subscribing_is_isolated(view: ServerView, connection: ConnectionId, id: Seq<char>, params: JsonView, now: Duration)
    requires
        clients_sound(view),
    ensures
        affects_only(view, view.subscribed(connection, id, params, now), connection),
{
    match view.selected(params) {
        Err(refusal) => {
            sending_is_isolated(view, connection, error_message(id, refusal.code, refusal.message), true);
        },
        Ok(project) => {
            let subscription = subscription_id(connection, view.next_subscription);
            let numbered = ServerView { next_subscription: (view.next_subscription + 1) as u64, ..view };
            assert(numbered.effects.take(view.effects.len() as int) =~= view.effects);
            assert(affects_only(view, numbered, connection));
            assert(clients_sound(numbered));
            if !numbered.can_subscribe(connection) {
                closing_is_isolated(numbered, connection);
                step_by_step(view, numbered, numbered.closed(connection), connection);
            } else {
                let entry = SubscriptionView { id: subscription, connection, project_id: project, returned: false };
                let registered = numbered.with_subscription(entry);
                assert(registered.subscriptions.drop_last() =~= view.subscriptions);
                assert(registered.effects.take(view.effects.len() as int) =~= view.effects);
                assert(affects_only(view, registered, connection));
                assert(subscription_place(registered.subscriptions, subscription) == registered.subscriptions.len() - 1);
                match registered.cached_projection(project) {
                    Some(projection) => {
                        let result = subscription_result(subscription, projection);
                        sending_is_isolated(registered, connection, result_message(id, result), true);
                        let after = registered.result_sent(connection, id, result).0;
                        step_by_step(view, registered, after, connection);
                        own_subscriptions_are_isolated(after, subscription, connection);
                        step_by_step(view, after, after.without_subscription(subscription), connection);
                        step_by_step(view, after, after.subscription_returned(subscription), connection);
                    },
                    None => {
                        let waiter = WaiterView {
                            project_id: project,
                            connection,
                            request_id: id,
                            kind: WaitKindView::Subscribe(subscription),
                        };
                        registering_keeps_clients_sound(numbered, entry);
                        waiting_is_isolated(registered, waiter, now);
                        step_by_step(view, registered, registered.waiting(waiter, now), connection);
                    },
                }
            }
        },
    }
}

proof fn registering_keeps_clients_sound(view: ServerView, subscription: SubscriptionView)
    requires
        clients_sound(view),
        view.connected(subscription.connection),
    ensures
        clients_sound(view.with_subscription(subscription)),
{
    let after = view.with_subscription(subscription);
    assert forall|i: int| 0 <= i < after.subscriptions.len() implies after.connected((#[trigger] after.subscriptions[i]).connection) by {
        if i < view.subscriptions.len() {
            assert(view.connected(view.subscriptions[i].connection));
        }
    }
    assert forall|i: int| 0 <= i < after.waiters.len() implies after.connected((#[trigger] after.waiters[i]).connection) by {
        assert(view.connected(view.waiters[i].connection));
    }
}

/// Whatever a client sends, only that client is affected: every other
/// connection keeps its subscriptions, its waiting requests and itself, and
/// gets nothing.
pub proof fn requests_affect_only_their_connection(view: ServerView, connection: ConnectionId, parsed: Result<JsonView, Seq<char>>, now: Duration)
    requires
        clients_sound(view),
    ensures
        affects_only(view, view.frame_handled(connection, parsed, now), connection),
{
    let refused_id = match parsed {
        Ok(json) => match json_field(json, "id"@) {
            Some(JsonView::Text(id)) => id,
            _ => ""@,
        },
        Err(_) => ""@,
    };
    let request = match parsed {
        Ok(json) => read_envelope(json),
        Err(_) => None,
    };
    match request {
        Some(EnvelopeView::Request { version, id, method, params }) => {
            assert forall|code: Seq<char>, message: Seq<char>| affects_only(
                view,
                #[trigger] view.error_sent(connection, id, code, message),
                connection,
            ) by {
                sending_is_isolated(view, connection, error_message(id, code, message), true);
            }
            assert forall|result: JsonView| affects_only(
                view,
                (#[trigger] view.result_sent(connection, id, result)).0,
                connection,
            ) by {
                sending_is_isolated(view, connection, result_message(id, result), true);
            }
            if version != PROTOCOL_VERSION {
                let sent = view.error_sent(
                    connection,
                    id,
                    "unsupported_version"@,
                    "unsupported protocol major version"@,
                );
                assert(clients_sound(sent));
                closing_is_isolated(sent, connection);
                step_by_step(view, sent, sent.closed(connection), connection);
            } else {
                match method {
                    MethodView::SnapshotGet => match view.selected(params) {
                        Err(_) => {},
                        Ok(project) => {
                            waiting_is_isolated(
                                view,
                                WaiterView { project_id: project, connection, request_id: id, kind: WaitKindView::Get },
                                now,
                            );
                        },
                    },
                    MethodView::SnapshotSubscribe => {
                        subscribing_is_isolated(view, connection, id, params, now);
                    },
                    MethodView::SnapshotUnsubscribe => match json_field(params, "subscriptionId"@) {
                        Some(JsonView::Text(subscription)) => {
                            if view.owns_subscription(connection, subscription) {
                                own_subscriptions_are_isolated(view, subscription, connection);
                                let gone = view.without_subscription(subscription);
                                let result = crate::server::request::unsubscribe_result();
                                sending_is_isolated(gone, connection, result_message(id, result), true);
                                step_by_step(view, gone, gone.result_sent(connection, id, result).0, connection);
                            }
                        },
                        _ => {},
                    },
                    _ => {},
                }
            }
        },
        _ => {
            sending_is_isolated(
                view,
                connection,
                error_message(refused_id, "invalid_request"@, "expected request envelope"@),
                true,
            );
        },
    }
}

/// A client that sends too much is closed, and only that client is affected.
pub proof fn oversized_frames_affect_only_their_connection(view: ServerView, connection: ConnectionId, request_id: Option<Seq<char>>)
    requires
        clients_sound(view),
    ensures
        affects_only(view, view.oversized(connection, request_id), connection),
        !view.oversized(connection, request_id).connected(connection),
{
    match request_id {
        Some(id) => {
            let frame = error_message(id, "frame_too_large"@, "frame exceeds maximum size"@);
            sending_is_isolated(view, connection, frame, true);
            let sent = view.error_sent(connection, id, "frame_too_large"@, "frame exceeds maximum size"@);
            assert(clients_sound(sent));
            closing_is_isolated(sent, connection);
            closing_leaves_nothing(sent, connection);
            step_by_step(view, sent, sent.closed(connection), connection);
        },
        None => {
            closing_is_isolated(view, connection);
            closing_leaves_nothing(view, connection);
        },
    }
}

} // verus!
