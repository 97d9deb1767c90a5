//! What each request is answered with, field by field.

use crate::envelope::{error_message, method_named, method_names_read_back, read_envelope, result_message, EnvelopeView,
    MethodView};
use crate::json::{json_bytes, json_field, JsonView};
use crate::message_laws::{every_project_is_listed, giving_up_is_acknowledged, greetings_tell_the_versions, is_row_of,
    refusals_answer_their_request, results_answer_their_request, subscribers_get_id_and_snapshot};
use crate::project::ProjectionView;
use crate::project_json::projection_json;
use crate::protocol::{ConnectionId, CounterName};
use crate::server::announcements::{frames_are_handed_over_where_there_is_room, has_room_for, numbers_differ};
use crate::server::answers::is_handed;
use crate::server::lists::{subscriptions_are_found, waiters_for_is_a_part};
use crate::server::model::{subscription_id, subscription_place, EffectView, ServerView, SubscriptionView, WaitKindView,
    WaiterView};
use crate::server::request::{hello_result, list_result, unsubscribe_result, RefusalView};
use crate::server::runs::asking_starts_runs;
use crate::server::snapshots::subscription_result;
use crate::text::decimal_text;
use crate::time::Duration;
use vstd::prelude::*;

verus! {

/// The connection is there.
pub open spec fn is_there(view: ServerView, connection: ConnectionId) -> bool {
    exists|k: int| 0 <= k < view.connections.len() && (#[trigger] view.connections[k]).id == connection
}

/// The document went to the connection, and nothing else was to be done; where
/// there was no room for it, the connection is shut down instead.
pub open spec fn replied(view: ServerView, after: ServerView, connection: ConnectionId, document: JsonView) -> bool {
    &&& after.effects.len() == view.effects.len() + 1
    &&& after.effects.drop_last() == view.effects
    &&& if has_room_for(view, connection, json_bytes(document).len()) {
        is_handed(after.effects.last(), connection, document)
    } else {
        after.effects.last() == EffectView::Shutdown { connection }
    }
}

/// Nothing but the ledger and what is to be done outside is touched.
pub open spec fn only_replies(view: ServerView, after: ServerView) -> bool {
    after == (ServerView { ledger: after.ledger, effects: after.effects, ..view })
}

/// The document answers the request of that id with a result.
pub open spec fn is_result_for(document: JsonView, id: Seq<char>) -> bool {
    &&& json_field(document, "v"@) == Some(JsonView::Unsigned(1))
    &&& json_field(document, "kind"@) == Some(JsonView::Text("res"@))
    &&& json_field(document, "id"@) == Some(JsonView::Text(id))
    &&& json_field(document, "ok"@) == Some(JsonView::Bool(true))
    &&& json_field(document, "result"@) is Some
    &&& json_field(document, "error"@) is None
}

/// The document refuses the request of that id for that reason.
pub open spec fn is_refusal_of(document: JsonView, id: Seq<char>, code: Seq<char>, message: Seq<char>) -> bool {
    let error = json_field(document, "error"@)->0;
    &&& json_field(document, "v"@) == Some(JsonView::Unsigned(1))
    &&& json_field(document, "kind"@) == Some(JsonView::Text("res"@))
    &&& json_field(document, "id"@) == Some(JsonView::Text(id))
    &&& json_field(document, "ok"@) == Some(JsonView::Bool(false))
    &&& json_field(document, "error"@) is Some
    &&& json_field(error, "code"@) == Some(JsonView::Text(code))
    &&& json_field(error, "message"@) == Some(JsonView::Text(message))
    &&& json_field(document, "result"@) is None
}

/// The request was refused for that reason, under its own id.
pub open spec fn was_refused(view: ServerView, after: ServerView, connection: ConnectionId, id: Seq<char>, code: Seq<char>, message: Seq<char>) -> bool {
    exists|document: JsonView|
        #[trigger] replied(view, after, connection, document) && is_refusal_of(document, id, code, message)
}

proof fn there_is_connected(view: ServerView, connection: ConnectionId)
    requires
        is_there(view, connection),
    ensures
        view.connected(connection),
{
    crate::server::membership::connections_are_found(view.connections, connection);
}

proof fn results_are_sent(view: ServerView, connection: ConnectionId, id: Seq<char>, result: JsonView)
    requires
        numbers_differ(view.connections),
        is_there(view, connection),
    ensures
        ({
            let after = view.result_sent(connection, id, result).0;
            let document = result_message(id, result);
            &&& replied(view, after, connection, document)
            &&& only_replies(view, after)
            &&& is_result_for(document, id)
            &&& json_field(document, "result"@) == Some(result)
        }),
{
    there_is_connected(view, connection);
    let document = result_message(id, result);
    let after = view.result_sent(connection, id, result).0;
    frames_are_handed_over_where_there_is_room(view, connection, document, true);
    results_answer_their_request(id, result);
    assert(after.effects.drop_last() =~= view.effects);
    let keys = seq!["v"@, "kind"@, "id"@, "ok"@, "result"@];
    reveal_strlit("error");
    reveal_strlit("v");
    reveal_strlit("kind");
    reveal_strlit("id");
    reveal_strlit("ok");
    reveal_strlit("result");
    assert("error"@.len() == 5 && "v"@.len() == 1 && "kind"@.len() == 4 && "id"@.len() == 2 && "ok"@.len() == 2 && "result"@.len() == 6);
    assert(!keys.contains("error"@));
    assert(json_field(document, "error"@) is None);
}

pub(crate) proof fn refusals_are_sent(view: ServerView, connection: ConnectionId, id: Seq<char>, code: Seq<char>, message: Seq<char>)
    requires
        numbers_differ(view.connections),
        is_there(view, connection),
    ensures
        ({
            let after = view.error_sent(connection, id, code, message);
            &&& was_refused(view, after, connection, id, code, message)
            &&& only_replies(view, after)
        }),
{
    there_is_connected(view, connection);
    let document = error_message(id, code, message);
    let after = view.error_sent(connection, id, code, message);
    frames_are_handed_over_where_there_is_room(view, connection, document, true);
    refusals_answer_their_request(id, code, message);
    assert(after.effects.drop_last() =~= view.effects);
    let keys = seq!["v"@, "kind"@, "id"@, "ok"@, "error"@];
    reveal_strlit("error");
    reveal_strlit("v");
    reveal_strlit("kind");
    reveal_strlit("id");
    reveal_strlit("ok");
    reveal_strlit("result");
    assert("error"@.len() == 5 && "v"@.len() == 1 && "kind"@.len() == 4 && "id"@.len() == 2 && "ok"@.len() == 2 && "result"@.len() == 6);
    assert(!keys.contains("result"@));
    assert(json_field(document, "result"@) is None);
    assert(is_refusal_of(document, id, code, message));
    assert(replied(view, after, connection, document));
}

// ---------------------------------------------------------------------------
// Reading requests

/// The document is a request for that method, with these parameters.
pub open spec fn is_request(document: JsonView, version: u64, id: Seq<char>, name: Seq<char>, params: JsonView) -> bool {
    &&& json_field(document, "kind"@) == Some(JsonView::Text("req"@))
    &&& json_field(document, "v"@) == Some(JsonView::Unsigned(version))
    &&& json_field(document, "id"@) == Some(JsonView::Text(id))
    &&& json_field(document, "method"@) == Some(JsonView::Text(name))
    &&& json_field(document, "params"@) == Some(params)
}

/// A frame that is a request is carried out as the method that it names,
/// whatever other fields it has.
pub proof fn requests_are_carried_out(view: ServerView, connection: ConnectionId, document: JsonView, version: u64, id: Seq<char>, name: Seq<char>, params: JsonView, now: Duration)
    requires
        is_request(document, version, id, name, params),
    ensures
        exists|method: MethodView| {
            &&& view.frame_handled(connection, Ok(document), now) == #[trigger] view.requested(
                connection,
                version,
                id,
                method,
                params,
                now,
            )
            &&& name == "server.hello"@ ==> method is ServerHello
            &&& name == "project.list"@ ==> method is ProjectList
            &&& name == "snapshot.get"@ ==> method is SnapshotGet
            &&& name == "snapshot.subscribe"@ ==> method is SnapshotSubscribe
            &&& name == "snapshot.unsubscribe"@ ==> method is SnapshotUnsubscribe
            &&& method is Unknown <==> name != "server.hello"@ && name != "project.list"@ && name != "snapshot.get"@ && name
                != "snapshot.subscribe"@ && name != "snapshot.unsubscribe"@
        },
{
    method_names_read_back(name);
    let method = method_named(name);
    assert(read_envelope(document) == Some(EnvelopeView::Request { version, id, method, params }));
    assert(view.frame_handled(connection, Ok(document), now) == view.requested(connection, version, id, method, params, now));
}

/// A frame that lacks something of a request, or is no document at all, is
/// refused under the id that it carries, or under an empty one, and changes
/// nothing.
pub proof fn other_frames_are_refused(view: ServerView, connection: ConnectionId, parsed: Result<JsonView, Seq<char>>, now: Duration)
    requires
        numbers_differ(view.connections),
        is_there(view, connection),
        parsed matches Ok(document) ==> forall|version: u64, id: Seq<char>, name: Seq<char>, params: JsonView|
            !#[trigger] is_request(document, version, id, name, params),
    ensures
        ({
            let after = view.frame_handled(connection, parsed, now);
            let id = match parsed {
                Ok(document) => match json_field(document, "id"@) {
                    Some(JsonView::Text(id)) => id,
                    _ => ""@,
                },
                Err(_) => ""@,
            };
            &&& was_refused(view, after, connection, id, "invalid_request"@, "expected request envelope"@)
            &&& only_replies(view, after)
        }),
{
    let id = match parsed {
        Ok(document) => match json_field(document, "id"@) {
            Some(JsonView::Text(id)) => id,
            _ => ""@,
        },
        Err(_) => ""@,
    };
    refusals_are_sent(view, connection, id, "invalid_request"@, "expected request envelope"@);
    match parsed {
        Ok(document) => {
            reveal_strlit("req");
            reveal_strlit("res");
            reveal_strlit("event");
            if let Some(EnvelopeView::Request { version, id, method, params }) = read_envelope(document) {
                let name = json_field(document, "method"@)->0->Text_0;
                assert("req"@.len() == 3 && "res"@.len() == 3 && "event"@.len() == 5);
                assert(is_request(document, version, id, name, params));
            }
        },
        Err(_) => {},
    }
}

// ---------------------------------------------------------------------------
// Carrying requests out

/// Whoever says hello is told the versions, among them the daemon's own.
pub proof fn hello_is_answered(view: ServerView, connection: ConnectionId, id: Seq<char>, params: JsonView, now: Duration)
    requires
        numbers_differ(view.connections),
        is_there(view, connection),
        params is Object,
    ensures
        ({
            let after = view.requested(connection, 1, id, MethodView::ServerHello, params, now);
            &&& only_replies(view, after)
            &&& exists|document: JsonView| {
                let result = json_field(document, "result"@)->0;
                &&& #[trigger] replied(view, after, connection, document)
                &&& is_result_for(document, id)
                &&& json_field(result, "serverVersion"@) == Some(JsonView::Text(view.server_version))
                &&& json_field(result, "protocolVersion"@) == Some(JsonView::Unsigned(1))
                &&& json_field(result, "snapshotSchemaMin"@) == Some(JsonView::Unsigned(1))
                &&& json_field(result, "snapshotSchemaMax"@) == Some(JsonView::Unsigned(1))
            }
        }),
{
    results_are_sent(view, connection, id, hello_result(view.server_version));
    greetings_tell_the_versions(view.server_version);
}

/// Whoever asks for the projects gets a row for each, in the order of the
/// registry, enabled or not.
pub proof fn project_lists_are_answered(view: ServerView, connection: ConnectionId, id: Seq<char>, params: JsonView, now: Duration)
    requires
        numbers_differ(view.connections),
        is_there(view, connection),
        params is Object,
    ensures
        ({
            let after = view.requested(connection, 1, id, MethodView::ProjectList, params, now);
            &&& only_replies(view, after)
            &&& exists|document: JsonView| {
                &&& #[trigger] replied(view, after, connection, document)
                &&& is_result_for(document, id)
                &&& json_field(json_field(document, "result"@)->0, "projects"@) matches Some(JsonView::List(rows)) && rows.len()
                    == view.projects.len() && forall|i: int| 0 <= i < rows.len() ==> is_row_of(#[trigger] rows[i], view.projects[i])
            }
        }),
{
    results_are_sent(view, connection, id, list_result(view.projects));
    every_project_is_listed(view.projects);
}

/// Whoever asks for a snapshot that is there gets it at once.
pub proof fn warm_snapshots_are_answered(view: ServerView, connection: ConnectionId, id: Seq<char>, params: JsonView, project: Seq<char>, projection: ProjectionView, now: Duration)
    requires
        numbers_differ(view.connections),
        is_there(view, connection),
        view.selected(params) == Ok::<Seq<char>, RefusalView>(project),
        view.caches.dom().contains(project),
        view.caches[project].projection == Some(projection),
    ensures
        ({
            let after = view.requested(connection, 1, id, MethodView::SnapshotGet, params, now);
            &&& only_replies(view, after)
            &&& exists|document: JsonView| {
                &&& #[trigger] replied(view, after, connection, document)
                &&& is_result_for(document, id)
                &&& json_field(document, "result"@) == Some(projection_json(projection))
            }
        }),
{
    results_are_sent(view, connection, id, projection_json(projection));
}

/// Whoever asks for a snapshot that is not there yet waits for it, behind those
/// who wait already, unless too many wait, for the project or in all.
pub proof fn cold_snapshots_are_waited_for(view: ServerView, connection: ConnectionId, id: Seq<char>, params: JsonView, project: Seq<char>, now: Duration)
    requires
        view.selected(params) == Ok::<Seq<char>, RefusalView>(project),
        view.caches.dom().contains(project) ==> view.caches[project].projection is None,
        view.waiters.filter(|w: WaiterView| w.project_id == project).len() < view.limits.cold_waiters,
        view.ledger[CounterName::Waiters] < view.limits.cold_waiters,
    ensures
        ({
            let after = view.requested(connection, 1, id, MethodView::SnapshotGet, params, now);
            &&& after.waiters == view.waiters.push(
                WaiterView { project_id: project, connection, request_id: id, kind: WaitKindView::Get },
            )
            &&& after.connections == view.connections
            &&& after.subscriptions == view.subscriptions
        }),
{
    waiters_for_is_a_part(view.waiters, project);
    let waiter = WaiterView { project_id: project, connection, request_id: id, kind: WaitKindView::Get };
    assert(view.can_wait(project));
    asking_starts_runs(view.with_waiter(waiter), project, now);
}

/// A request in another version of the protocol is refused and costs the
/// connection; one for a method that is not known, or without an object as its
/// parameters, is refused.
pub proof fn strange_requests_are_refused(view: ServerView, connection: ConnectionId, version: u64, id: Seq<char>, name: Seq<char>, method: MethodView, params: JsonView, now: Duration)
    requires
        numbers_differ(view.connections),
        is_there(view, connection),
    ensures
        version != 1 ==> exists|refused: ServerView| {
            &&& was_refused(view, refused, connection, id, "unsupported_version"@, "unsupported protocol major version"@)
            &&& only_replies(view, refused)
            &&& view.requested(connection, version, id, method, params, now) == #[trigger] refused.closed(connection)
        },
        was_refused(
            view,
            view.requested(connection, 1, id, MethodView::Unknown(name), params, now),
            connection,
            id,
            "unknown_method"@,
            "unknown request method"@,
        ),
        !(params is Object) && (method is ServerHello || method is ProjectList || method is SnapshotGet || method is SnapshotSubscribe)
            ==> was_refused(
            view,
            view.requested(connection, 1, id, method, params, now),
            connection,
            id,
            "invalid_params"@,
            "params must be an object"@,
        ),
{
    refusals_are_sent(view, connection, id, "unsupported_version"@, "unsupported protocol major version"@);
    refusals_are_sent(view, connection, id, "unknown_method"@, "unknown request method"@);
    refusals_are_sent(view, connection, id, "invalid_params"@, "params must be an object"@);
    if version != 1 {
        let refused = view.error_sent(connection, id, "unsupported_version"@, "unsupported protocol major version"@);
        assert(view.requested(connection, version, id, method, params, now) == refused.closed(connection));
    }
}

/// A request for a project that cannot be served is refused for the reason that
/// its selection was.
pub proof fn refused_selections_are_answered(view: ServerView, connection: ConnectionId, id: Seq<char>, params: JsonView, refusal: RefusalView, now: Duration)
    requires
        numbers_differ(view.connections),
        is_there(view, connection),
        view.selected(params) == Err::<Seq<char>, RefusalView>(refusal),
    ensures
        was_refused(
            view,
            view.requested(connection, 1, id, MethodView::SnapshotGet, params, now),
            connection,
            id,
            refusal.code,
            refusal.message,
        ),
        was_refused(
            view,
            view.requested(connection, 1, id, MethodView::SnapshotSubscribe, params, now),
            connection,
            id,
            refusal.code,
            refusal.message,
        ),
{
    refusals_are_sent(view, connection, id, refusal.code, refusal.message);
}

/// A subscription is given up by its own connection once that knows its id: it
/// leaves the list, the others stay, and that is acknowledged.
pub proof fn subscriptions_are_given_up(view: ServerView, connection: ConnectionId, id: Seq<char>, params: JsonView, at: int, now: Duration)
    requires
        numbers_differ(view.connections),
        is_there(view, connection),
        0 <= at < view.subscriptions.len(),
        forall|i: int| 0 <= i < view.subscriptions.len() && i != at ==> (#[trigger] view.subscriptions[i]).id != view.subscriptions[at].id,
        view.subscriptions[at].connection == connection,
        view.subscriptions[at].returned,
        json_field(params, "subscriptionId"@) == Some(JsonView::Text(view.subscriptions[at].id)),
    ensures
        ({
            let after = view.requested(connection, 1, id, MethodView::SnapshotUnsubscribe, params, now);
            &&& after.subscriptions == view.subscriptions.remove(at)
            &&& after.waiters == view.waiters
            &&& after.connections == view.connections
            &&& exists|free: ServerView, document: JsonView| {
                &&& free == (ServerView { subscriptions: view.subscriptions.remove(at), ledger: free.ledger, ..view })
                &&& #[trigger] replied(free, after, connection, document)
                &&& is_result_for(document, id)
                &&& json_field(json_field(document, "result"@)->0, "ok"@) == Some(JsonView::Bool(true))
            }
        }),
{
    let subscription = view.subscriptions[at].id;
    subscriptions_are_found(view.subscriptions, subscription);
    let found = subscription_place(view.subscriptions, subscription);
    assert(view.subscriptions[at].id == subscription);
    assert(found == at);
    let free = view.without_subscription(subscription);
    assert(free.connections == view.connections);
    assert(is_there(free, connection)) by {
        let k = choose|k: int| 0 <= k < view.connections.len() && (#[trigger] view.connections[k]).id == connection;
        assert(free.connections[k].id == connection);
    }
    results_are_sent(free, connection, id, unsubscribe_result());
    giving_up_is_acknowledged();
    assert(free == (ServerView { subscriptions: view.subscriptions.remove(at), ledger: free.ledger, ..view }));
}

/// A subscription that is another's, that its client does not know yet or that
/// is not there cannot be given up, nor can one that is not named.
pub proof fn only_owners_give_up(view: ServerView, connection: ConnectionId, id: Seq<char>, params: JsonView, subscription: Seq<char>, now: Duration)
    requires
        numbers_differ(view.connections),
        is_there(view, connection),
        forall|i: int|
            0 <= i < view.subscriptions.len() && (#[trigger] view.subscriptions[i]).id == subscription ==> view.subscriptions[i].connection
                != connection || !view.subscriptions[i].returned,
    ensures
        json_field(params, "subscriptionId"@) == Some(JsonView::Text(subscription)) ==> was_refused(
            view,
            view.requested(connection, 1, id, MethodView::SnapshotUnsubscribe, params, now),
            connection,
            id,
            "unknown_subscription"@,
            "subscription is not owned by this connection"@,
        ),
        !(json_field(params, "subscriptionId"@) matches Some(JsonView::Text(_))) ==> was_refused(
            view,
            view.requested(connection, 1, id, MethodView::SnapshotUnsubscribe, params, now),
            connection,
            id,
            "invalid_params"@,
            "subscriptionId is required"@,
        ),
{
    subscriptions_are_found(view.subscriptions, subscription);
    refusals_are_sent(view, connection, id, "unknown_subscription"@, "subscription is not owned by this connection"@);
    refusals_are_sent(view, connection, id, "invalid_params"@, "subscriptionId is required"@);
}

// ---------------------------------------------------------------------------
// Subscribing

/// The connection may have one more subscription, and so may all together.
pub open spec fn may_subscribe(view: ServerView, connection: ConnectionId) -> bool {
    &&& view.ledger[CounterName::ConnectionSubscriptions(connection)] < view.limits.connection_subscriptions
    &&& view.ledger[CounterName::GlobalSubscriptions] < view.limits.global_subscriptions
}

/// The next subscription of a connection: under an id that is made of the
/// connection's number and its own.
pub open spec fn is_next_subscription(view: ServerView, subscription: SubscriptionView, connection: ConnectionId, project: Seq<char>) -> bool {
    &&& subscription.id == "s-"@ + decimal_text(connection as nat) + "-"@ + decimal_text(view.next_subscription as nat)
    &&& subscription.connection == connection
    &&& subscription.project_id == project
}

/// Whoever subscribes to a project with a snapshot gets a subscription of its
/// own and is told its id, together with the snapshot; if that could not be
/// sent there is no subscription.
pub proof fn warm_subscriptions_are_answered(view: ServerView, connection: ConnectionId, id: Seq<char>, params: JsonView, project: Seq<char>, projection: ProjectionView, now: Duration)
    requires
        numbers_differ(view.connections),
        is_there(view, connection),
        view.has_ids(),
        view.selected(params) == Ok::<Seq<char>, RefusalView>(project),
        view.caches.dom().contains(project),
        view.caches[project].projection == Some(projection),
        may_subscribe(view, connection),
        forall|i: int|
            0 <= i < view.subscriptions.len() ==> (#[trigger] view.subscriptions[i]).id != subscription_id(
                connection,
                view.next_subscription,
            ),
    ensures
        ({
            let after = view.requested(connection, 1, id, MethodView::SnapshotSubscribe, params, now);
            &&& after.next_subscription == view.next_subscription + 1
            &&& after.waiters == view.waiters
            &&& exists|granted: ServerView, document: JsonView, subscription: SubscriptionView| {
                let result = json_field(document, "result"@)->0;
                &&& #[trigger] replied(granted, after, connection, document)
                &&& #[trigger] is_next_subscription(view, subscription, connection, project)
                &&& granted.effects == view.effects && granted.connections == view.connections && granted.limits == view.limits
                &&& is_result_for(document, id)
                &&& json_field(result, "subscriptionId"@) == Some(JsonView::Text(subscription.id))
                &&& json_field(result, "snapshot"@) == Some(projection_json(projection))
                &&& after.subscriptions == if has_room_for(granted, connection, json_bytes(document).len()) {
                    view.subscriptions.push(SubscriptionView { returned: true, ..subscription })
                } else {
                    view.subscriptions
                }
            }
        }),
{
    there_is_connected(view, connection);
    let own = subscription_id(connection, view.next_subscription);
    let numbered = ServerView { next_subscription: (view.next_subscription + 1) as u64, ..view };
    let entry = SubscriptionView { id: own, connection, project_id: project, returned: false };
    let granted = numbered.with_subscription(entry);
    let k = choose|k: int| 0 <= k < view.connections.len() && (#[trigger] view.connections[k]).id == connection;
    assert(granted.connections[k].id == connection);
    assert(numbered.can_subscribe(connection));
    let result = subscription_result(own, projection);
    results_are_sent(granted, connection, id, result);
    subscribers_get_id_and_snapshot(own, projection);
    let document = result_message(id, result);
    frames_are_handed_over_where_there_is_room(granted, connection, document, true);
    let list = granted.subscriptions;
    let at = list.len() - 1;
    assert(list.last().id == own);
    assert(subscription_place(list, own) == at);
    let (told, sent) = granted.result_sent(connection, id, result);
    let after = view.requested(connection, 1, id, MethodView::SnapshotSubscribe, params, now);
    assert(granted.cached_projection(project) == Some(projection));
    if sent {
        assert(after == told.subscription_returned(own));
        assert(list.update(at, SubscriptionView { returned: true, ..entry }) =~= view.subscriptions.push(
            SubscriptionView { returned: true, ..entry },
        ));
    } else {
        assert(after == told.without_subscription(own));
        assert(list.remove(at) =~= view.subscriptions);
    }
    assert(after.effects == told.effects);
    assert(replied(granted, after, connection, document));
    assert(is_next_subscription(view, entry, connection, project));
}

/// Whoever subscribes to a project without a snapshot waits for it, with a
/// subscription that is not known to it yet.
pub proof fn cold_subscriptions_are_waited_for(view: ServerView, connection: ConnectionId, id: Seq<char>, params: JsonView, project: Seq<char>, now: Duration)
    requires
        is_there(view, connection),
        view.has_ids(),
        view.selected(params) == Ok::<Seq<char>, RefusalView>(project),
        view.caches.dom().contains(project) ==> view.caches[project].projection is None,
        may_subscribe(view, connection),
        view.waiters.filter(|w: WaiterView| w.project_id == project).len() < view.limits.cold_waiters,
        view.ledger[CounterName::Waiters] < view.limits.cold_waiters,
    ensures
        ({
            let after = view.requested(connection, 1, id, MethodView::SnapshotSubscribe, params, now);
            &&& exists|subscription: SubscriptionView| {
                &&& #[trigger] is_next_subscription(view, subscription, connection, project)
                &&& !subscription.returned
                &&& after.subscriptions == view.subscriptions.push(subscription)
                &&& after.waiters == view.waiters.push(
                    WaiterView { project_id: project, connection, request_id: id, kind: WaitKindView::Subscribe(subscription.id) },
                )
            }
            &&& after.connections == view.connections
            &&& after.next_subscription == view.next_subscription + 1
        }),
{
    there_is_connected(view, connection);
    waiters_for_is_a_part(view.waiters, project);
    let own = subscription_id(connection, view.next_subscription);
    let numbered = ServerView { next_subscription: (view.next_subscription + 1) as u64, ..view };
    let entry = SubscriptionView { id: own, connection, project_id: project, returned: false };
    let granted = numbered.with_subscription(entry);
    let waiter = WaiterView { project_id: project, connection, request_id: id, kind: WaitKindView::Subscribe(own) };
    assert(numbered.can_subscribe(connection));
    assert(granted.can_wait(project));
    asking_starts_runs(granted.with_waiter(waiter), project, now);
    assert(is_next_subscription(view, entry, connection, project));
}

/// A request that would wait where no more may, and a subscription beyond a
/// limit, cost the connection: it is closed, and nothing is sent.
pub proof fn too_many_cost_the_connection(view: ServerView, connection: ConnectionId, id: Seq<char>, params: JsonView, project: Seq<char>, now: Duration)
    requires
        is_there(view, connection),
        view.has_ids(),
        view.selected(params) == Ok::<Seq<char>, RefusalView>(project),
    ensures
        (view.caches.dom().contains(project) ==> view.caches[project].projection is None) && (view.waiters.filter(
            |w: WaiterView| w.project_id == project,
        ).len() >= view.limits.cold_waiters || view.ledger[CounterName::Waiters] >= view.limits.cold_waiters) ==> view.requested(
            connection,
            1,
            id,
            MethodView::SnapshotGet,
            params,
            now,
        ) == view.closed(connection),
        !may_subscribe(view, connection) ==> view.requested(connection, 1, id, MethodView::SnapshotSubscribe, params, now) == (ServerView {
            next_subscription: (view.next_subscription + 1) as u64,
            ..view
        }).closed(connection),
{
    there_is_connected(view, connection);
    waiters_for_is_a_part(view.waiters, project);
}

} // verus!
