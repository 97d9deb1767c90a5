//! How subscriptions are granted, given up and limited.

use crate::json::{json_field, JsonView};
use crate::envelope::result_message;
use crate::project::ProjectionView;
use crate::protocol::{ConnectionId, CounterName, WriterMessageView};
use crate::server::accounts::{accounted, in_limits, limit_for, subscription_place_in_range,
    subscriptions_hold_their_places, what_is_given_up_is_given_back};
use crate::server::following::{ids_unique, subscriptions_sound};
use crate::server::membership::{clients_sound, closing_leaves_nothing};
use crate::server::model::{subscription_id, subscription_place, subscriptions_off, subscriptions_on, waiter_permit,
    EffectView, ServerView, SubscriptionView, WaitKindView, WaiterView};
use crate::server::request::unsubscribe_result;
use crate::server::runs::asking_starts_runs;
use crate::server::snapshots::subscription_result;
use crate::time::Duration;
use vstd::prelude::*;

verus! {

// ---------------------------------------------------------------------------
// Places in the list

proof fn updated_place(list: Seq<SubscriptionView>, at: int, subscription: SubscriptionView, id: Seq<char>)
    requires
        0 <= at < list.len(),
        subscription.id == list[at].id,
    ensures
        subscription_place(list.update(at, subscription), id) == subscription_place(list, id),
    decreases list.len(),
{
    let updated = list.update(at, subscription);
    if at == list.len() - 1 {
        assert(updated.drop_last() =~= list.drop_last());
    } else {
        assert(updated.drop_last() =~= list.drop_last().update(at, subscription));
        updated_place(list.drop_last(), at, subscription, id);
    }
}

proof fn removed_place(list: Seq<SubscriptionView>, id: Seq<char>)
    requires
        ids_unique(list),
        subscription_place(list, id) >= 0,
    ensures
        subscription_place(list.remove(subscription_place(list, id)), id) < 0,
{
    let at = subscription_place(list, id);
    subscription_place_in_range(list, id);
    let left = list.remove(at);
    subscription_place_in_range(left, id);
    let found = subscription_place(left, id);
    if found >= 0 {
        let k = if found < at {
            found
        } else {
            found + 1
        };
        assert(left[found] == list[k]);
        if k < at {
            assert(list[k].id != list[at].id);
        } else {
            assert(list[at].id != list[k].id);
        }
    }
}

// ---------------------------------------------------------------------------
// Granting and giving up

/// A subscription whose client has not been told of it yet cannot be given up:
/// the request is refused, and the subscription and the request that waits for
/// it stay.
pub proof fn pending_subscriptions_cannot_be_given_up(view: ServerView, connection: ConnectionId, id: Seq<char>, params: JsonView, subscription: Seq<char>)
    requires
        json_field(params, "subscriptionId"@) == Some(JsonView::Text(subscription)),
        subscription_place(view.subscriptions, subscription) >= 0,
        !view.subscriptions[subscription_place(view.subscriptions, subscription)].returned,
    ensures
        view.unsubscribed(connection, id, params) == view.error_sent(
            connection,
            id,
            "unknown_subscription"@,
            "subscription is not owned by this connection"@,
        ),
        view.unsubscribed(connection, id, params).subscriptions == view.subscriptions,
        view.unsubscribed(connection, id, params).waiters == view.waiters,
{
}

/// A subscription to a project without a snapshot begins as one that cannot be
/// given up yet.
pub proof fn cold_subscriptions_begin_pending(view: ServerView, connection: ConnectionId, id: Seq<char>, params: JsonView, now: Duration)
    requires
        view.has_ids(),
        view.selected(params) is Ok,
        view.cached_projection(view.selected(params)->Ok_0) is None,
        view.can_subscribe(connection),
        view.can_wait(view.selected(params)->Ok_0),
    ensures
        ({
            let project = view.selected(params)->Ok_0;
            let subscription = subscription_id(connection, view.next_subscription);
            let after = view.subscribed(connection, id, params, now);
            let at = subscription_place(after.subscriptions, subscription);
            &&& at >= 0 && !after.subscriptions[at].returned && after.subscriptions[at].connection == connection
            &&& after.waiters == view.waiters.push(
                WaiterView { project_id: project, connection, request_id: id, kind: WaitKindView::Subscribe(subscription) },
            )
        }),
{
    let project = view.selected(params)->Ok_0;
    let subscription = subscription_id(connection, view.next_subscription);
    let numbered = ServerView { next_subscription: (view.next_subscription + 1) as u64, ..view };
    let entry = SubscriptionView { id: subscription, connection, project_id: project, returned: false };
    let registered = numbered.with_subscription(entry);
    let waiter = WaiterView { project_id: project, connection, request_id: id, kind: WaitKindView::Subscribe(subscription) };
    let waiting = registered.with_waiter(waiter);
    asking_starts_runs(waiting, project, now);
    assert(registered.can_wait(project));
    assert(view.subscribed(connection, id, params, now) == waiting.started(project, now));
    assert(waiting.started(project, now).subscriptions == view.subscriptions.push(entry));
}

/// Once the answer with its id is on its way a subscription is its client's and
/// can be given up; where the answer could not be sent it is gone. So a
/// subscription is never both given up and granted afterwards.
pub proof fn granted_subscriptions_can_be_given_up(view: ServerView, waiter: WaiterView, subscription: Seq<char>, projection: ProjectionView, message: Seq<char>, too_large: bool, id: Seq<char>, params: JsonView)
    requires
        subscriptions_sound(view),
        view.connected(waiter.connection),
        waiter.kind == WaitKindView::Subscribe(subscription),
        subscription_place(view.subscriptions, subscription) >= 0,
        view.subscriptions[subscription_place(view.subscriptions, subscription)].connection == waiter.connection,
        json_field(params, "subscriptionId"@) == Some(JsonView::Text(subscription)),
    ensures
        ({
            let c = waiter.connection;
            let sent = view.ended(
                c,
                result_message(waiter.request_id, subscription_result(subscription, projection)),
                waiter_permit(),
                false,
            ).1;
            let after = view.waiter_answered(waiter, Some(projection), message, too_large);
            &&& sent ==> {
                &&& after.owns_subscription(c, subscription)
                &&& after.unsubscribed(c, id, params) == after.without_subscription(subscription).result_sent(
                    c,
                    id,
                    unsubscribe_result(),
                ).0
                &&& subscription_place(after.unsubscribed(c, id, params).subscriptions, subscription) < 0
            }
            &&& !sent ==> {
                &&& subscription_place(after.subscriptions, subscription) < 0
                &&& !after.owns_subscription(c, subscription)
            }
        }),
{
    let c = waiter.connection;
    let at = subscription_place(view.subscriptions, subscription);
    subscription_place_in_range(view.subscriptions, subscription);
    let (told, sent) = view.ended(
        c,
        result_message(waiter.request_id, subscription_result(subscription, projection)),
        waiter_permit(),
        false,
    );
    assert(told.subscriptions == view.subscriptions);
    if sent {
        let owned = SubscriptionView { returned: true, ..view.subscriptions[at] };
        updated_place(view.subscriptions, at, owned, subscription);
        let after = told.subscription_returned(subscription);
        let list = after.subscriptions;
        assert(list == view.subscriptions.update(at, owned));
        assert forall|i: int, j: int| 0 <= i < j < list.len() implies (#[trigger] list[i]).id != (#[trigger] list[j]).id by {
            assert(view.subscriptions[i].id != view.subscriptions[j].id);
        }
        removed_place(list, subscription);
    } else {
        removed_place(view.subscriptions, subscription);
    }
}

// ---------------------------------------------------------------------------
// Limits

/// A subscription beyond a limit, of its connection or overall, is not added.
/// No frame is sent; the connection that asked is closed, and it is the only
/// one that is.
pub proof fn subscriptions_beyond_a_limit_cost_their_connection(view: ServerView, writing: Seq<WriterMessageView>, connection: ConnectionId, id: Seq<char>, params: JsonView, now: Duration)
    requires
        accounted(view, writing),
        clients_sound(view),
        view.connected(connection),
        view.has_ids(),
        view.selected(params) is Ok,
        subscriptions_on(view.subscriptions, connection).len() >= view.limits.connection_subscriptions
            || view.subscriptions.len() >= view.limits.global_subscriptions,
    ensures
        ({
            let after = view.subscribed(connection, id, params, now);
            &&& after.subscriptions == subscriptions_off(view.subscriptions, connection)
            &&& exists|await_delivery: bool|
                after.effects == view.effects.push(#[trigger] closing(connection, await_delivery))
            &&& !after.connected(connection)
            &&& forall|other: ConnectionId| other != connection ==> after.connected(other) == #[trigger] view.connected(other)
        }),
{
    let own = CounterName::ConnectionSubscriptions(connection);
    let all = CounterName::GlobalSubscriptions;
    subscriptions_hold_their_places(view.subscriptions, connection);
    what_is_given_up_is_given_back(view, writing, connection, ""@, own);
    what_is_given_up_is_given_back(view, writing, connection, ""@, all);
    let numbered = ServerView { next_subscription: (view.next_subscription + 1) as u64, ..view };
    assert(!numbered.can_subscribe(connection));
    assert(view.subscribed(connection, id, params, now) == numbered.closed(connection));
    closing_leaves_nothing(numbered, connection);
    let after = numbered.without_connection(connection);
    let waits = after.ledger[CounterName::RequiredDeliveries(connection)] > 0;
    assert(numbered.closed(connection).effects == view.effects.push(closing(connection, waits)));
    assert forall|other: ConnectionId| other != connection implies numbered.closed(connection).connected(other)
        == #[trigger] view.connected(other) by {
        assert(numbered.connected(other) == view.connected(other));
    }
}

pub open spec fn closing(connection: ConnectionId, await_delivery: bool) -> EffectView {
    EffectView::Close { connection, await_delivery }
}

/// Giving up a subscription makes room for another of the same connection.
pub proof fn given_up_places_are_granted_again(view: ServerView, writing: Seq<WriterMessageView>, connection: ConnectionId, id: Seq<char>, params: JsonView, subscription: Seq<char>)
    requires
        accounted(view, writing),
        in_limits(view),
        view.connected(connection),
        json_field(params, "subscriptionId"@) == Some(JsonView::Text(subscription)),
        view.owns_subscription(connection, subscription),
    ensures
        view.unsubscribed(connection, id, params).can_subscribe(connection),
{
    let own = CounterName::ConnectionSubscriptions(connection);
    let all = CounterName::GlobalSubscriptions;
    let at = subscription_place(view.subscriptions, subscription);
    subscription_place_in_range(view.subscriptions, subscription);
    assert(view.ledger[own] <= limit_for(view.limits, own));
    assert(view.ledger[all] <= limit_for(view.limits, all));
    what_is_given_up_is_given_back(view, writing, connection, subscription, own);
    what_is_given_up_is_given_back(view, writing, connection, subscription, all);
    subscriptions_hold_their_places(view.subscriptions, connection);
    one_less_is_held(view.subscriptions, at, connection);
}

proof fn one_less_is_held(list: Seq<SubscriptionView>, at: int, connection: ConnectionId)
    requires
        0 <= at < list.len(),
        list[at].connection == connection,
    ensures
        subscriptions_on(list, connection).len() > 0,
    decreases list.len(),
{
    if at < list.len() - 1 {
        one_less_is_held(list.drop_last(), at, connection);
    }
}

/// The end of a connection that had a subscription makes room for one of any
/// other connection that is within its own limit.
pub proof fn places_of_lost_connections_are_granted_again(view: ServerView, writing: Seq<WriterMessageView>, lost: ConnectionId, other: ConnectionId)
    requires
        accounted(view, writing),
        in_limits(view),
        clients_sound(view),
        lost != other,
        view.connected(lost),
        view.connected(other),
        subscriptions_on(view.subscriptions, lost).len() > 0,
        view.ledger[CounterName::ConnectionSubscriptions(other)] < view.limits.connection_subscriptions,
    ensures
        view.closed(lost).can_subscribe(other),
        view.dropped(lost).can_subscribe(other),
{
    let own = CounterName::ConnectionSubscriptions(other);
    let all = CounterName::GlobalSubscriptions;
    assert(view.ledger[all] <= limit_for(view.limits, all));
    what_is_given_up_is_given_back(view, writing, lost, ""@, own);
    what_is_given_up_is_given_back(view, writing, lost, ""@, all);
    subscriptions_hold_their_places(view.subscriptions, lost);
    subscriptions_hold_their_places(subscriptions_off(view.subscriptions, lost), lost);
    subscriptions_hold_their_places(view.subscriptions, other);
    subscriptions_hold_their_places(subscriptions_off(view.subscriptions, lost), other);
    others_keep_theirs(view.subscriptions, lost, other);
    closing_leaves_nothing(view, lost);
    assert(view.closed(lost).connected(other));
    assert(view.dropped(lost).connected(other));
}

proof fn others_keep_theirs(list: Seq<SubscriptionView>, lost: ConnectionId, other: ConnectionId)
    requires
        lost != other,
    ensures
        subscriptions_on(subscriptions_off(list, lost), other).len() == subscriptions_on(list, other).len(),
    decreases list.len(),
{
    if list.len() > 0 {
        others_keep_theirs(list.drop_last(), lost, other);
        let before = subscriptions_off(list.drop_last(), lost);
        assert(before.push(list.last()).drop_last() =~= before);
    }
}

/// A subscription within both limits to a project with a snapshot is granted:
/// if the answer can be sent the client owns it.
pub proof fn warm_subscriptions_are_granted(view: ServerView, connection: ConnectionId, id: Seq<char>, params: JsonView, now: Duration, projection: ProjectionView)
    requires
        view.has_ids(),
        view.selected(params) is Ok,
        view.cached_projection(view.selected(params)->Ok_0) == Some(projection),
        view.can_subscribe(connection),
    ensures
        ({
            let project = view.selected(params)->Ok_0;
            let subscription = subscription_id(connection, view.next_subscription);
            let entry = SubscriptionView { id: subscription, connection, project_id: project, returned: false };
            let registered = ServerView {
                next_subscription: (view.next_subscription + 1) as u64,
                ..view
            }.with_subscription(entry);
            let (told, sent) = registered.result_sent(connection, id, subscription_result(subscription, projection));
            let after = view.subscribed(connection, id, params, now);
            &&& sent ==> after.owns_subscription(connection, subscription) && after.effects == told.effects
            &&& !sent ==> after == told.without_subscription(subscription)
        }),
{
    let project = view.selected(params)->Ok_0;
    let subscription = subscription_id(connection, view.next_subscription);
    let entry = SubscriptionView { id: subscription, connection, project_id: project, returned: false };
    let registered = ServerView {
        next_subscription: (view.next_subscription + 1) as u64,
        ..view
    }.with_subscription(entry);
    let list = registered.subscriptions;
    assert(list.last().id == subscription);
    let at = list.len() - 1;
    assert(subscription_place(list, subscription) == at);
    updated_place(list, at, SubscriptionView { returned: true, ..list[at] }, subscription);
}

} // verus!
