//! Where every place and every byte of the ledger is held, whatever happens.

use crate::envelope::{error_message, event_message, read_envelope, result_message, EnvelopeView, MethodView};
use crate::json::{json_bytes, json_field, JsonView};
use crate::limits::Limits;
use crate::project::{ProjectionView, RecordView, SnapshotView};
use crate::project_json::projection_json;
use crate::protocol::{delivery_owed, fits, outbound_fits, outbound_released, outbound_reserved, permit_released,
    reserved, slot_released, terminal_released, CapacityPermit, ConnectionId, CounterName, LedgerView, OutboundView,
    TerminalView, WriterMessageView};
use crate::server::endings::ended_payload;
use crate::server::events::{cancelling_only_asks, EventView};
use crate::server::membership::connections_are_found;
use crate::server::model::{active_place, record_with, same_run, subscribers, subscription_permit, subscription_place,
    subscriptions_beside, subscriptions_dropped, subscriptions_for, subscriptions_off, subscriptions_on, texts_except,
    waiter_permit, waiters_beside, waiters_dropped, waiters_for, waiters_off, waiters_on, Connection, EffectView,
    RunView, ServerView, SubscriptionView, WaitKindView, WaiterView};
use crate::server::registry_watch::{pending_after, pending_without, retried, unwatched, updated_payload};
use crate::server::replacement::{added_ids, ends, event_enabled, event_path, ids_of, moves};
use crate::server::request::{hello_result, list_result, unsubscribe_result};
use crate::server::runs::{asking_starts_runs, deferred_runs_start_in_order, due_projects_start_runs, marking_keeps,
    only_starts_runs, path_changes_keep};
use crate::server::snapshots::{failed_payload, replaced_payload, subscription_result, KeptView};
use crate::snapshot::{failure_code, failure_text, FailureView};
use crate::time::Duration;
use vstd::prelude::*;

verus! {

// ---------------------------------------------------------------------------
// Holdings

/// How much of a quantity a permit holds.
pub open spec fn permit_holds(permit: CapacityPermit, name: CounterName) -> int {
    (if permit.primary == name {
        1int
    } else {
        0
    }) + (if permit.secondary == Some(name) {
        1int
    } else {
        0
    })
}

pub open spec fn slot_holds(slot: Option<CapacityPermit>, name: CounterName) -> int {
    match slot {
        Some(permit) => permit_holds(permit, name),
        None => 0,
    }
}

/// How much of a quantity a frame holds.
pub open spec fn outbound_holds(frame: OutboundView, name: CounterName) -> int {
    slot_holds(frame.writer_slot, name) + (if name == CounterName::WriterBytes(frame.connection) || name == CounterName::GlobalWriterBytes {
        frame.bytes.len() as int
    } else {
        0
    })
}

/// How much of a quantity a frame holds for being owed to a connection.
pub open spec fn delivery_holds(required: Option<ConnectionId>, name: CounterName) -> int {
    match required {
        Some(connection) => if name == CounterName::RequiredDeliveries(connection) {
            1
        } else {
            0
        },
        None => 0,
    }
}

pub open spec fn terminal_holds(frame: TerminalView, name: CounterName) -> int {
    (match frame.accounted {
        Some(outbound) => outbound_holds(outbound, name),
        None => 0,
    }) + permit_holds(frame.capacity, name) + delivery_holds(frame.required_deliveries, name)
}

pub open spec fn message_holds(message: WriterMessageView, name: CounterName) -> int {
    match message {
        WriterMessageView::Frame(frame) => outbound_holds(frame, name),
        WriterMessageView::Terminal(frame) => terminal_holds(frame, name),
        WriterMessageView::Close => 0,
    }
}

/// How much of a quantity the messages hold that are with the writers.
pub open spec fn messages_hold(list: Seq<WriterMessageView>, name: CounterName) -> int
    decreases list.len(),
{
    if list.len() == 0 {
        0
    } else {
        messages_hold(list.drop_last(), name) + message_holds(list.last(), name)
    }
}

pub open spec fn effect_holds(effect: EffectView, name: CounterName) -> int {
    match effect {
        EffectView::Deliver { message, .. } => message_holds(message, name),
        _ => 0,
    }
}

/// How much of a quantity the messages hold that are still to be handed out.
pub open spec fn effects_hold(list: Seq<EffectView>, name: CounterName) -> int
    decreases list.len(),
{
    if list.len() == 0 {
        0
    } else {
        effects_hold(list.drop_last(), name) + effect_holds(list.last(), name)
    }
}

pub open spec fn waiters_hold(count: nat, name: CounterName) -> int {
    if name == CounterName::Waiters {
        count as int
    } else {
        0
    }
}

pub open spec fn subscriptions_hold(list: Seq<SubscriptionView>, name: CounterName) -> int
    decreases list.len(),
{
    if list.len() == 0 {
        0
    } else {
        subscriptions_hold(list.drop_last(), name) + permit_holds(subscription_permit(list.last().connection), name)
    }
}

/// How much of a quantity the daemon's own state accounts for.
pub open spec fn owed(view: ServerView, name: CounterName) -> int {
    effects_hold(view.effects, name) + waiters_hold(view.waiters.len(), name) + subscriptions_hold(view.subscriptions, name)
}

/// How much of a quantity is held elsewhere.
pub open spec fn elsewhere(view: ServerView, name: CounterName) -> int {
    view.ledger[name] - owed(view, name)
}

/// Quantities whose use can be counted: frames that are owed to a connection
/// only while the limits keep their number below the largest.
pub open spec fn counted(limits: Limits, name: CounterName) -> bool {
    name is RequiredDeliveries ==> limits.queue_places() < usize::MAX
}

/// Every place, every byte and every owed frame in the ledger is held exactly
/// once: by a waiting request, by a subscription, by a message that is to be
/// handed out, or by one of the messages in `writing`, which the writers have.
pub open spec fn accounted(view: ServerView, writing: Seq<WriterMessageView>) -> bool {
    forall|name: CounterName| #[trigger] counted(view.limits, name) ==> elsewhere(view, name) == messages_hold(writing, name)
}

/// The limit of a quantity.
pub open spec fn limit_for(limits: Limits, name: CounterName) -> usize {
    match name {
        CounterName::WriterBytes(_) => limits.egress_bytes,
        CounterName::WriterFrames(_) => limits.egress_frames,
        CounterName::RequiredDeliveries(_) => usize::MAX,
        CounterName::ConnectionSubscriptions(_) => limits.connection_subscriptions,
        CounterName::GlobalWriterBytes => limits.global_egress_bytes,
        CounterName::GlobalSubscriptions => limits.global_subscriptions,
        CounterName::Waiters => limits.cold_waiters,
    }
}

/// No quantity is over its limit.
pub open spec fn in_limits(view: ServerView) -> bool {
    forall|name: CounterName| #[trigger] view.ledger[name] <= limit_for(view.limits, name)
}

spec fn in_limit(view: ServerView, name: CounterName) -> bool {
    view.ledger[name] <= limit_for(view.limits, name)
}

/// The place of a frame in the queue of a connection.
pub open spec fn frame_slot(connection: ConnectionId) -> CapacityPermit {
    CapacityPermit { primary: CounterName::WriterFrames(connection), secondary: None }
}

/// The message is for that connection, and holds a place in its queue or the
/// place of the request or subscription that it ends.
pub open spec fn is_for(message: WriterMessageView, connection: ConnectionId) -> bool {
    match message {
        WriterMessageView::Frame(frame) => {
            &&& frame.connection == connection
            &&& frame.writer_slot matches Some(slot) ==> slot == frame_slot(connection)
        },
        WriterMessageView::Terminal(frame) => {
            &&& frame.accounted is Some || frame.required_deliveries is Some
            &&& frame.capacity == frame_slot(connection) || frame.capacity == waiter_permit() || frame.capacity
                == subscription_permit(connection)
            &&& frame.accounted matches Some(outbound) ==> outbound.connection == connection && outbound.writer_slot is None
            &&& frame.required_deliveries matches Some(owed_to) ==> owed_to == connection
        },
        WriterMessageView::Close => true,
    }
}

pub open spec fn effect_is_addressed(effect: EffectView) -> bool {
    match effect {
        EffectView::Deliver { connection, message } => is_for(message, connection),
        _ => true,
    }
}

/// Every message that is to be handed out is for the connection that it goes
/// to.
pub open spec fn addressed(effects: Seq<EffectView>) -> bool {
    forall|i: int| 0 <= i < effects.len() ==> effect_is_addressed(#[trigger] effects[i])
}

/// Whoever holds places of this kind has at least that many.
spec fn enough(view: ServerView, name: CounterName, count: int) -> bool {
    name is RequiredDeliveries || elsewhere(view, name) >= count
}

/// `b` holds `less` less of a quantity elsewhere than `a` does, unless too many
/// frames are owed to be counted, and is within its limit if `a` is; and no
/// connection is new.
spec fn moves_by(a: ServerView, b: ServerView, name: CounterName, less: int) -> bool {
    &&& (name is RequiredDeliveries ==> effects_hold(b.effects, name) + elsewhere(a, name) < usize::MAX) ==> elsewhere(b, name)
        == elsewhere(a, name) - less
    &&& effects_hold(a.effects, name) <= effects_hold(b.effects, name)
    &&& in_limit(a, name) ==> in_limit(b, name)
    &&& b.limits == a.limits
    &&& addressed(a.effects) ==> addressed(b.effects)
    &&& b.connections.len() <= a.connections.len()
}

proof fn holdings_are_positive(view: ServerView, name: CounterName)
    ensures
        owed(view, name) >= 0,
        effects_hold(view.effects, name) >= 0,
        subscriptions_hold(view.subscriptions, name) >= 0,
        name is RequiredDeliveries ==> owed(view, name) == effects_hold(view.effects, name),
{
    effects_positive(view.effects, name);
    subscriptions_positive(view.subscriptions, name);
}

proof fn effects_positive(list: Seq<EffectView>, name: CounterName)
    ensures
        effects_hold(list, name) >= 0,
    decreases list.len(),
{
    if list.len() > 0 {
        effects_positive(list.drop_last(), name);
    }
}

proof fn subscriptions_positive(list: Seq<SubscriptionView>, name: CounterName)
    ensures
        subscriptions_hold(list, name) >= 0,
        name is RequiredDeliveries ==> subscriptions_hold(list, name) == 0,
    decreases list.len(),
{
    if list.len() > 0 {
        subscriptions_positive(list.drop_last(), name);
    }
}

proof fn pushed_effect(list: Seq<EffectView>, effect: EffectView, name: CounterName)
    ensures
        effects_hold(list.push(effect), name) == effects_hold(list, name) + effect_holds(effect, name),
        effect_holds(effect, name) >= 0,
        addressed(list) && effect_is_addressed(effect) ==> addressed(list.push(effect)),
{
    assert(list.push(effect).drop_last() =~= list);
}

// ---------------------------------------------------------------------------
// Sending

proof fn queueing_is_accounted(view: ServerView, connection: ConnectionId, frame: JsonView, close_on_failure: bool, name: CounterName)
    ensures
        moves_by(view, view.queued(connection, frame, close_on_failure).0, name, 0),
{
    let bytes = json_bytes(frame);
    let slot = CapacityPermit { primary: CounterName::WriterFrames(connection), secondary: None };
    pushed_effect(view.effects, EffectView::Shutdown { connection }, name);
    pushed_effect(
        view.effects,
        EffectView::Deliver {
            connection,
            message: WriterMessageView::Frame(OutboundView { bytes, connection, writer_slot: Some(slot) }),
        },
        name,
    );
}

proof fn given_back(ledger: LedgerView, permit: CapacityPermit, name: CounterName)
    requires
        ledger[name] >= permit_holds(permit, name),
        permit.secondary != Some(permit.primary),
    ensures
        permit_released(ledger, permit)[name] == ledger[name] - permit_holds(permit, name),
{
}

proof fn capacity_is_exchanged(view: ServerView, connection: ConnectionId, owner: CapacityPermit, name: CounterName)
    requires
        view.ledger[name] >= permit_holds(owner, name),
        owner == waiter_permit() || owner == subscription_permit(connection),
    ensures
        ({
            let (ledger, capacity) = view.terminal_capacity(connection, owner);
            &&& capacity == frame_slot(connection) || capacity == owner
            &&& name is RequiredDeliveries ==> ledger[name] == view.ledger[name]
            &&& ledger[name] - permit_holds(capacity, name) == view.ledger[name] - permit_holds(owner, name)
            &&& ledger[name] >= permit_holds(capacity, name)
            &&& capacity.secondary != Some(capacity.primary)
            &&& in_limit(view, name) ==> ledger[name] <= limit_for(view.limits, name)
        }),
{
    if fits(view.ledger, CounterName::WriterFrames(connection), 1, view.limits.egress_frames) {
        given_back(reserved(view.ledger, CounterName::WriterFrames(connection), 1), owner, name);
    }
}

proof fn accounted_terminal_is_released(ledger: LedgerView, connection: ConnectionId, bytes: Seq<u8>, capacity: CapacityPermit, limits: Limits, name: CounterName)
    requires
        bytes.len() <= usize::MAX,
        outbound_fits(ledger, connection, bytes.len() as usize, limits),
        ledger[name] >= permit_holds(capacity, name),
        capacity.secondary != Some(capacity.primary),
    ensures
        ({
            let terminal = TerminalView {
                bytes,
                accounted: Some(OutboundView { bytes, connection, writer_slot: None }),
                capacity,
                required_deliveries: None,
            };
            let taken = outbound_reserved(ledger, connection, bytes.len() as usize);
            &&& taken[name] == ledger[name] + terminal_holds(terminal, name) - permit_holds(capacity, name)
            &&& terminal_released(taken, terminal)[name] == ledger[name] - permit_holds(capacity, name)
        }),
{
    let taken = outbound_reserved(ledger, connection, bytes.len() as usize);
    let outbound = OutboundView { bytes, connection, writer_slot: None };
    assert(outbound_released(taken, outbound)[name] == ledger[name]);
    given_back(outbound_released(taken, outbound), capacity, name);
}

proof fn required_terminal_is_released(ledger: LedgerView, connection: ConnectionId, bytes: Seq<u8>, capacity: CapacityPermit, name: CounterName)
    requires
        ledger[name] >= permit_holds(capacity, name),
        capacity.secondary != Some(capacity.primary),
        name is RequiredDeliveries ==> permit_holds(capacity, name) == 0,
    ensures
        ({
            let terminal = TerminalView { bytes, accounted: None, capacity, required_deliveries: Some(connection) };
            let taken = delivery_owed(ledger, connection);
            &&& terminal_holds(terminal, name) == permit_holds(capacity, name) + delivery_holds(Some(connection), name)
            &&& (name is RequiredDeliveries ==> ledger[name] < usize::MAX) ==> {
                &&& taken[name] == ledger[name] + delivery_holds(Some(connection), name)
                &&& terminal_released(taken, terminal)[name] == ledger[name] - permit_holds(capacity, name)
            }
        }),
{
    let taken = delivery_owed(ledger, connection);
    given_back(taken, capacity, name);
}

proof fn with_ledger_and_effect(view: ServerView, ledger: LedgerView, effect: EffectView, name: CounterName)
    ensures
        elsewhere(view.with_ledger(ledger), name) == ledger[name] - owed(view, name),
        elsewhere(view.with_ledger(ledger).with_effect(effect), name) == ledger[name] - owed(view, name) - effect_holds(
            effect,
            name,
        ),
        effects_hold(view.effects.push(effect), name) == effects_hold(view.effects, name) + effect_holds(effect, name),
        effect_holds(effect, name) >= 0,
        addressed(view.effects) && effect_is_addressed(effect) ==> addressed(view.effects.push(effect)),
{
    pushed_effect(view.effects, effect, name);
}

proof fn terminals_are_accounted(view: ServerView, connection: ConnectionId, frame: JsonView, owner: CapacityPermit, required: bool, name: CounterName)
    requires
        enough(view, name, permit_holds(owner, name)),
        owner == waiter_permit() || owner == subscription_permit(connection),
    ensures
        moves_by(view, view.ended(connection, frame, owner, required).0, name, permit_holds(owner, name)),
{
    holdings_are_positive(view, name);
    let bytes = json_bytes(frame);
    let count = bytes.len() as usize;
    let gone = EffectView::Shutdown { connection };
    given_back(view.ledger, owner, name);
    if !view.connected(connection) {
        with_ledger_and_effect(view, permit_released(view.ledger, owner), gone, name);
    } else if bytes.len() > view.limits.frame_bytes {
        with_ledger_and_effect(view, permit_released(view.ledger, owner), gone, name);
    } else {
        capacity_is_exchanged(view, connection, owner, name);
        let (ledger, capacity) = view.terminal_capacity(connection, owner);
        if !required && !outbound_fits(ledger, connection, count, view.limits) {
            given_back(ledger, capacity, name);
            with_ledger_and_effect(view, permit_released(ledger, capacity), gone, name);
        } else if required {
            required_terminal_is_released(ledger, connection, bytes, capacity, name);
            let terminal = TerminalView { bytes, accounted: None, capacity, required_deliveries: Some(connection) };
            let taken = delivery_owed(ledger, connection);
            with_ledger_and_effect(
                view,
                taken,
                EffectView::Deliver { connection, message: WriterMessageView::Terminal(terminal) },
                name,
            );
            with_ledger_and_effect(view, terminal_released(taken, terminal), gone, name);
        } else {
            accounted_terminal_is_released(ledger, connection, bytes, capacity, view.limits, name);
            let terminal = TerminalView {
                bytes,
                accounted: Some(OutboundView { bytes, connection, writer_slot: None }),
                capacity,
                required_deliveries: None,
            };
            let taken = outbound_reserved(ledger, connection, count);
            with_ledger_and_effect(
                view,
                taken,
                EffectView::Deliver { connection, message: WriterMessageView::Terminal(terminal) },
                name,
            );
            with_ledger_and_effect(view, terminal_released(taken, terminal), gone, name);
        }
    }
}

proof fn broadcasts_are_accounted(view: ServerView, connections: Seq<Connection>, event: Seq<char>, payload: JsonView, name: CounterName)
    ensures
        moves_by(view, view.broadcast_to(connections, event, payload), name, 0),
    decreases connections.len(),
{
    if connections.len() > 0 {
        broadcasts_are_accounted(view, connections.drop_last(), event, payload, name);
        let before = view.broadcast_to(connections.drop_last(), event, payload);
        let c = connections.last().id;
        let protected = before.owes_delivery(c);
        queueing_is_accounted(before, c, event_message(event, payload), !protected, name);
    }
}

proof fn project_events_are_accounted(view: ServerView, connections: Seq<ConnectionId>, event: Seq<char>, payload: JsonView, name: CounterName)
    ensures
        moves_by(view, view.event_sent_to(connections, event, payload), name, 0),
    decreases connections.len(),
{
    if connections.len() > 0 {
        project_events_are_accounted(view, connections.drop_last(), event, payload, name);
        let before = view.event_sent_to(connections.drop_last(), event, payload);
        queueing_is_accounted(before, connections.last(), event_message(event, payload), true, name);
    }
}

// ---------------------------------------------------------------------------
// Lists

proof fn pushed_subscription(list: Seq<SubscriptionView>, subscription: SubscriptionView, name: CounterName)
    ensures
        subscriptions_hold(list.push(subscription), name) == subscriptions_hold(list, name) + permit_holds(
            subscription_permit(subscription.connection),
            name,
        ),
{
    assert(list.push(subscription).drop_last() =~= list);
}

proof fn removed_subscription(list: Seq<SubscriptionView>, at: int, name: CounterName)
    requires
        0 <= at < list.len(),
    ensures
        subscriptions_hold(list.remove(at), name) == subscriptions_hold(list, name) - permit_holds(
            subscription_permit(list[at].connection),
            name,
        ),
    decreases list.len(),
{
    if at == list.len() - 1 {
        assert(list.remove(at) =~= list.drop_last());
    } else {
        removed_subscription(list.drop_last(), at, name);
        assert(list.remove(at).drop_last() =~= list.drop_last().remove(at));
        assert(list.remove(at).last() == list.last());
    }
}

proof fn updated_subscription(list: Seq<SubscriptionView>, at: int, subscription: SubscriptionView, name: CounterName)
    requires
        0 <= at < list.len(),
        subscription.connection == list[at].connection,
    ensures
        subscriptions_hold(list.update(at, subscription), name) == subscriptions_hold(list, name),
    decreases list.len(),
{
    if at == list.len() - 1 {
        assert(list.update(at, subscription).drop_last() =~= list.drop_last());
    } else {
        updated_subscription(list.drop_last(), at, subscription, name);
        assert(list.update(at, subscription).drop_last() =~= list.drop_last().update(at, subscription));
    }
}

proof fn parted_by_connection(list: Seq<SubscriptionView>, connection: ConnectionId, name: CounterName)
    ensures
        subscriptions_hold(list, name) == subscriptions_hold(subscriptions_on(list, connection), name) + subscriptions_hold(
            subscriptions_off(list, connection),
            name,
        ),
    decreases list.len(),
{
    if list.len() > 0 {
        parted_by_connection(list.drop_last(), connection, name);
        pushed_subscription(subscriptions_on(list.drop_last(), connection), list.last(), name);
        pushed_subscription(subscriptions_off(list.drop_last(), connection), list.last(), name);
    }
}

proof fn parted_by_project(list: Seq<SubscriptionView>, project: Seq<char>, name: CounterName)
    ensures
        subscriptions_hold(list, name) == subscriptions_hold(subscriptions_for(list, project), name) + subscriptions_hold(
            subscriptions_beside(list, project),
            name,
        ),
    decreases list.len(),
{
    if list.len() > 0 {
        parted_by_project(list.drop_last(), project, name);
        pushed_subscription(subscriptions_for(list.drop_last(), project), list.last(), name);
        pushed_subscription(subscriptions_beside(list.drop_last(), project), list.last(), name);
    }
}

/// Waiting requests are either of a connection or not.
pub proof fn waiters_are_on_or_off(list: Seq<WaiterView>, connection: ConnectionId)
    ensures
        list.len() == waiters_on(list, connection).len() + waiters_off(list, connection).len(),
    decreases list.len(),
{
    if list.len() > 0 {
        waiters_are_on_or_off(list.drop_last(), connection);
    }
}

/// Waiting requests are either for a project or not.
pub proof fn waiters_are_for_or_beside(list: Seq<WaiterView>, project: Seq<char>)
    ensures
        list.len() == waiters_for(list, project).len() + waiters_beside(list, project).len(),
    decreases list.len(),
{
    if list.len() > 0 {
        waiters_are_for_or_beside(list.drop_last(), project);
    }
}

proof fn dropped_subscriptions(ledger: LedgerView, list: Seq<SubscriptionView>, name: CounterName)
    requires
        ledger[name] >= subscriptions_hold(list, name),
    ensures
        subscriptions_dropped(ledger, list)[name] == ledger[name] - subscriptions_hold(list, name),
    decreases list.len(),
{
    if list.len() > 0 {
        dropped_subscriptions(ledger, list.drop_last(), name);
        given_back(
            subscriptions_dropped(ledger, list.drop_last()),
            subscription_permit(list.last().connection),
            name,
        );
    }
}

proof fn dropped_waiters(ledger: LedgerView, list: Seq<WaiterView>, name: CounterName)
    requires
        ledger[name] >= waiters_hold(list.len(), name),
    ensures
        waiters_dropped(ledger, list)[name] == ledger[name] - waiters_hold(list.len(), name),
    decreases list.len(),
{
    if list.len() > 0 {
        dropped_waiters(ledger, list.drop_last(), name);
        given_back(waiters_dropped(ledger, list.drop_last()), waiter_permit(), name);
    }
}

// ---------------------------------------------------------------------------
// Connections, subscriptions and waiting requests

proof fn forgetting_is_accounted(view: ServerView, connection: ConnectionId, name: CounterName)
    requires
        enough(view, name, 0),
        view.connected(connection),
    ensures
        moves_by(view, view.without_connection(connection), name, 0),
{
    connections_are_found(view.connections, connection);
    holdings_are_positive(view, name);
    parted_by_connection(view.subscriptions, connection, name);
    waiters_are_on_or_off(view.waiters, connection);
    let on = subscriptions_on(view.subscriptions, connection);
    subscriptions_positive(on, name);
    subscriptions_positive(subscriptions_off(view.subscriptions, connection), name);
    dropped_subscriptions(view.ledger, on, name);
    dropped_waiters(subscriptions_dropped(view.ledger, on), waiters_on(view.waiters, connection), name);
}

proof fn closing_is_accounted(view: ServerView, connection: ConnectionId, name: CounterName)
    requires
        enough(view, name, 0),
    ensures
        moves_by(view, view.closed(connection), name, 0),
        moves_by(view, view.dropped(connection), name, 0),
{
    if view.connected(connection) {
        forgetting_is_accounted(view, connection, name);
        let after = view.without_connection(connection);
        pushed_effect(
            after.effects,
            EffectView::Close {
                connection,
                await_delivery: after.ledger[CounterName::RequiredDeliveries(connection)] > 0,
            },
            name,
        );
        pushed_effect(after.effects, EffectView::Drop { connection }, name);
    }
}

proof fn unsubscribing_is_accounted(view: ServerView, id: Seq<char>, name: CounterName)
    requires
        enough(view, name, 0),
    ensures
        moves_by(view, view.without_subscription(id), name, 0),
        moves_by(view, view.subscription_returned(id), name, 0),
{
    let at = subscription_place(view.subscriptions, id);
    subscription_place_in_range(view.subscriptions, id);
    if at >= 0 {
        holdings_are_positive(view, name);
        removed_subscription(view.subscriptions, at, name);
        subscriptions_positive(view.subscriptions.remove(at), name);
        given_back(view.ledger, subscription_permit(view.subscriptions[at].connection), name);
        updated_subscription(
            view.subscriptions,
            at,
            SubscriptionView { returned: true, ..view.subscriptions[at] },
            name,
        );
    }
}

/// The place of a subscription is in the list, and is that of its id.
pub proof fn subscription_place_in_range(list: Seq<SubscriptionView>, id: Seq<char>)
    ensures
        -1 <= subscription_place(list, id) < list.len(),
        subscription_place(list, id) >= 0 ==> list[subscription_place(list, id)].id == id,
    decreases list.len(),
{
    if list.len() > 0 {
        subscription_place_in_range(list.drop_last(), id);
    }
}

proof fn waiting_is_accounted(view: ServerView, waiter: WaiterView, name: CounterName)
    requires
        view.can_wait(waiter.project_id),
    ensures
        moves_by(view, view.with_waiter(waiter), name, 0),
{
}

proof fn subscribing_is_accounted(view: ServerView, subscription: SubscriptionView, name: CounterName)
    requires
        view.can_subscribe(subscription.connection),
    ensures
        moves_by(view, view.with_subscription(subscription), name, 0),
{
    pushed_subscription(view.subscriptions, subscription, name);
}

// ---------------------------------------------------------------------------
// Ends

proof fn answers_are_accounted(view: ServerView, waiter: WaiterView, projection: Option<ProjectionView>, message: Seq<char>, too_large: bool, name: CounterName)
    requires
        enough(view, name, permit_holds(waiter_permit(), name)),
    ensures
        moves_by(
            view,
            view.waiter_answered(waiter, projection, message, too_large),
            name,
            permit_holds(waiter_permit(), name),
        ),
{
    let c = waiter.connection;
    let id = waiter.request_id;
    holdings_are_positive(view, name);
    if !view.connected(c) {
        given_back(view.ledger, waiter_permit(), name);
    } else {
        match projection {
            Some(projection) => match waiter.kind {
                WaitKindView::Get => {
                    terminals_are_accounted(
                        view,
                        c,
                        result_message(id, projection_json(projection)),
                        waiter_permit(),
                        false,
                        name,
                    );
                },
                WaitKindView::Subscribe(subscription) => {
                    let frame = result_message(
                        id,
                        subscription_result(subscription, projection),
                    );
                    terminals_are_accounted(view, c, frame, waiter_permit(), false, name);
                    unsubscribing_is_accounted(view.ended(c, frame, waiter_permit(), false).0, subscription, name);
                },
            },
            None => {
                let unsubscribed = match waiter.kind {
                    WaitKindView::Get => view,
                    WaitKindView::Subscribe(subscription) => view.without_subscription(subscription),
                };
                match waiter.kind {
                    WaitKindView::Get => {},
                    WaitKindView::Subscribe(subscription) => {
                        unsubscribing_is_accounted(view, subscription, name);
                    },
                }
                if too_large {
                    closing_is_accounted(unsubscribed, c, name);
                    let closed = unsubscribed.closed(c);
                    holdings_are_positive(closed, name);
                    given_back(closed.ledger, waiter_permit(), name);
                } else {
                    terminals_are_accounted(
                        unsubscribed,
                        c,
                        error_message(id, "unavailable"@, message),
                        waiter_permit(),
                        true,
                        name,
                    );
                }
            },
        }
    }
}

proof fn all_answers_are_accounted(view: ServerView, list: Seq<WaiterView>, projection: Option<ProjectionView>, message: Seq<char>, too_large: bool, name: CounterName)
    requires
        enough(view, name, waiters_hold(list.len(), name)),
    ensures
        moves_by(
            view,
            view.waiters_answered_from(list, projection, message, too_large),
            name,
            waiters_hold(list.len(), name),
        ),
    decreases list.len(),
{
    if list.len() > 0 {
        all_answers_are_accounted(view, list.drop_last(), projection, message, too_large, name);
        answers_are_accounted(
            view.waiters_answered_from(list.drop_last(), projection, message, too_large),
            list.last(),
            projection,
            message,
            too_large,
            name,
        );
    }
}

proof fn taking_waiters_is_accounted(view: ServerView, id: Seq<char>, name: CounterName)
    ensures
        moves_by(view, view.waiters_taken(id), name, -waiters_hold(waiters_for(view.waiters, id).len(), name)),
{
    waiters_are_for_or_beside(view.waiters, id);
}

proof fn answered_waiters_are_accounted(view: ServerView, id: Seq<char>, too_large: bool, name: CounterName)
    requires
        enough(view, name, 0),
    ensures
        moves_by(view, view.waiters_answered(id, too_large), name, 0),
{
    taking_waiters_is_accounted(view, id, name);
    all_answers_are_accounted(
        view.waiters_taken(id),
        waiters_for(view.waiters, id),
        view.cached_projection(id),
        view.failure_message(id),
        too_large,
        name,
    );
}

proof fn ended_subscriptions_are_accounted(view: ServerView, list: Seq<SubscriptionView>, reason: Seq<char>, name: CounterName)
    requires
        enough(view, name, subscriptions_hold(list, name)),
    ensures
        moves_by(view, view.subscriptions_ended(list, reason), name, subscriptions_hold(list, name)),
    decreases list.len(),
{
    if list.len() > 0 {
        let last = list.last();
        ended_subscriptions_are_accounted(view, list.drop_last(), reason, name);
        let before = view.subscriptions_ended(list.drop_last(), reason);
        subscriptions_positive(list.drop_last(), name);
        holdings_are_positive(before, name);
        given_back(before.ledger, subscription_permit(last.connection), name);
        terminals_are_accounted(
            before,
            last.connection,
            event_message(
                "subscription.ended"@,
                ended_payload(last.id, reason),
            ),
            subscription_permit(last.connection),
            true,
            name,
        );
    }
}

proof fn refusals_are_accounted(view: ServerView, waiter: WaiterView, message: Seq<char>, name: CounterName)
    requires
        enough(view, name, permit_holds(waiter_permit(), name)),
    ensures
        moves_by(view, view.waiter_refused(waiter, message), name, permit_holds(waiter_permit(), name)),
{
    terminals_are_accounted(
        view,
        waiter.connection,
        error_message(waiter.request_id, "unavailable"@, message),
        waiter_permit(),
        true,
        name,
    );
}

proof fn all_refusals_are_accounted(view: ServerView, list: Seq<WaiterView>, message: Seq<char>, name: CounterName)
    requires
        enough(view, name, waiters_hold(list.len(), name)),
    ensures
        moves_by(view, view.waiters_refused(list, message), name, waiters_hold(list.len(), name)),
    decreases list.len(),
{
    if list.len() > 0 {
        all_refusals_are_accounted(view, list.drop_last(), message, name);
        refusals_are_accounted(view.waiters_refused(list.drop_last(), message), list.last(), message, name);
    }
}

proof fn displaced_waiters_are_accounted(view: ServerView, list: Seq<WaiterView>, restart_gets: bool, name: CounterName)
    requires
        enough(view, name, waiters_hold(list.len(), name)),
    ensures
        moves_by(view, view.waiters_displaced(list, restart_gets), name, waiters_hold(list.len(), name)),
    decreases list.len(),
{
    if list.len() > 0 {
        displaced_waiters_are_accounted(view, list.drop_last(), restart_gets, name);
        let before = view.waiters_displaced(list.drop_last(), restart_gets);
        refusals_are_accounted(before, list.last(), "subscription ended because the project was replaced"@, name);
        refusals_are_accounted(
            before,
            list.last(),
            "snapshot unavailable because the project was removed, disabled, or replaced"@,
            name,
        );
    }
}

proof fn ended_projects_are_accounted(view: ServerView, project: Seq<char>, reason: Seq<char>, restart_gets: bool, name: CounterName)
    requires
        enough(view, name, 0),
    ensures
        moves_by(view, view.project_ended(project, reason, restart_gets), name, 0),
{
    let list = subscriptions_for(view.subscriptions, project);
    let taken = ServerView { subscriptions: subscriptions_beside(view.subscriptions, project), ..view };
    parted_by_project(view.subscriptions, project, name);
    subscriptions_positive(list, name);
    ended_subscriptions_are_accounted(taken, list, reason, name);
    let told = taken.subscriptions_ended(list, reason);
    taking_waiters_is_accounted(told, project, name);
    displaced_waiters_are_accounted(
        told.waiters_taken(project),
        waiters_for(told.waiters, project),
        restart_gets,
        name,
    );
}

// ---------------------------------------------------------------------------
// Events

proof fn more_effects(a: Seq<EffectView>, b: Seq<EffectView>, name: CounterName)
    requires
        b.len() >= a.len(),
        b.take(a.len() as int) == a,
        forall|i: int| a.len() <= i < b.len() ==> #[trigger] effect_holds(b[i], name) == 0,
    ensures
        effects_hold(b, name) == effects_hold(a, name),
    decreases b.len(),
{
    if b.len() > a.len() {
        assert(b.drop_last().take(a.len() as int) =~= a);
        assert forall|i: int| a.len() <= i < b.drop_last().len() implies #[trigger] effect_holds(b.drop_last()[i], name) == 0 by {
            assert(effect_holds(b[i], name) == 0);
        }
        more_effects(a, b.drop_last(), name);
        assert(effect_holds(b[b.len() - 1], name) == 0);
    } else {
        assert(b =~= a);
    }
}

proof fn starts_are_accounted(a: ServerView, b: ServerView, name: CounterName)
    requires
        only_starts_runs(a, b),
    ensures
        moves_by(a, b, name, 0),
{
    assert forall|i: int| a.effects.len() <= i < b.effects.len() implies #[trigger] effect_holds(b.effects[i], name) == 0 by {
        let k = a.active.len() + (i - a.effects.len());
        assert(b.effects[a.effects.len() + (k - a.active.len())] == (EffectView::Launch { run: b.active[k] }));
    }
    more_effects(a.effects, b.effects, name);
    if addressed(a.effects) {
        assert forall|i: int| 0 <= i < b.effects.len() implies effect_is_addressed(#[trigger] b.effects[i]) by {
            if i < a.effects.len() {
                assert(b.effects.take(a.effects.len() as int)[i] == a.effects[i]);
            } else {
                let k = a.active.len() + (i - a.effects.len());
                assert(b.effects[a.effects.len() + (k - a.active.len())] == (EffectView::Launch { run: b.active[k] }));
            }
        }
    }
}

proof fn finishing_is_accounted(view: ServerView, run: RunView, result: Result<SnapshotView, FailureView>, now: Duration, name: CounterName)
    requires
        enough(view, name, 0),
    ensures
        moves_by(view, view.finished(run, result, now), name, 0),
{
    let id = run.record.id;
    let at = active_place(view.active, id);
    if at < 0 || !same_run(view.active[at], run) {
    } else {
        let idle = ServerView { active: view.active.remove(at), ..view };
        if !idle.is_current(run) {
            let rested = idle.with_dirty(idle.dirty.ended(id, now));
            asking_starts_runs(rested, id, now);
            starts_are_accounted(rested, rested.started(id, now), name);
            answered_waiters_are_accounted(rested, id, false, name);
        } else {
            let outcome = idle.judged(run, result);
            let had_good = idle.cached_projection(id) is Some;
            let too_large = outcome matches Err(FailureView::OutputTooLarge(_));
            let cached = idle.cached(id, outcome);
            answered_waiters_are_accounted(cached, id, too_large, name);
            telling_is_accounted(cached.waiters_answered(id, too_large), id, outcome, had_good, name);
        }
    }
}

proof fn telling_is_accounted(view: ServerView, id: Seq<char>, outcome: Result<KeptView, FailureView>, had_good: bool, name: CounterName)
    ensures
        moves_by(view, view.subscribers_told(id, outcome, had_good), name, 0),
{
    let list = subscribers(view.subscriptions, id);
    match outcome {
        Ok(_) => match view.cached_projection(id) {
            Some(projection) => {
                project_events_are_accounted(view, list, "snapshot.replaced"@, replaced_payload(id, projection), name);
            },
            None => {},
        },
        Err(failure) => {
            project_events_are_accounted(
                view,
                list,
                "snapshot.failed"@,
                failed_payload(id, failure_text(failure), failure_code(failure)),
                name,
            );
        },
    }
}

proof fn cold_requests_are_accounted(view: ServerView, waiter: WaiterView, now: Duration, name: CounterName)
    requires
        enough(view, name, 0),
    ensures
        moves_by(view, view.waiting(waiter, now), name, 0),
{
    if view.can_wait(waiter.project_id) {
        waiting_is_accounted(view, waiter, name);
        let waiting = view.with_waiter(waiter);
        asking_starts_runs(waiting, waiter.project_id, now);
        starts_are_accounted(waiting, waiting.started(waiter.project_id, now), name);
    } else {
        closing_is_accounted(view, waiter.connection, name);
    }
}

proof fn errors_are_accounted(view: ServerView, connection: ConnectionId, id: Seq<char>, code: Seq<char>, message: Seq<char>, name: CounterName)
    ensures
        moves_by(view, view.error_sent(connection, id, code, message), name, 0),
{
    queueing_is_accounted(view, connection, error_message(id, code, message), true, name);
}

proof fn results_are_accounted(view: ServerView, connection: ConnectionId, id: Seq<char>, result: JsonView, name: CounterName)
    ensures
        moves_by(view, view.result_sent(connection, id, result).0, name, 0),
{
    queueing_is_accounted(view, connection, result_message(id, result), true, name);
}

proof fn gets_are_accounted(view: ServerView, connection: ConnectionId, id: Seq<char>, params: JsonView, now: Duration, name: CounterName)
    requires
        enough(view, name, 0),
    ensures
        moves_by(view, view.snapshot_gotten(connection, id, params, now), name, 0),
{
    match view.selected(params) {
        Err(refusal) => errors_are_accounted(view, connection, id, refusal.code, refusal.message, name),
        Ok(project) => match view.cached_projection(project) {
            Some(projection) => results_are_accounted(view, connection, id, projection_json(projection), name),
            None => cold_requests_are_accounted(
                view,
                WaiterView { project_id: project, connection, request_id: id, kind: WaitKindView::Get },
                now,
                name,
            ),
        },
    }
}

proof fn subscriptions_are_accounted(view: ServerView, connection: ConnectionId, id: Seq<char>, params: JsonView, now: Duration, name: CounterName)
    requires
        enough(view, name, 0),
    ensures
        moves_by(view, view.subscribed(connection, id, params, now), name, 0),
{
    match view.selected(params) {
        Err(refusal) => errors_are_accounted(view, connection, id, refusal.code, refusal.message, name),
        Ok(project) => {
            let subscription = crate::server::model::subscription_id(connection, view.next_subscription);
            let numbered = ServerView { next_subscription: (view.next_subscription + 1) as u64, ..view };
            closing_is_accounted(numbered, connection, name);
            if numbered.can_subscribe(connection) {
                let entry = SubscriptionView { id: subscription, connection, project_id: project, returned: false };
                subscribing_is_accounted(numbered, entry, name);
                let registered = numbered.with_subscription(entry);
                match registered.cached_projection(project) {
                    Some(projection) => {
                        let result = subscription_result(subscription, projection);
                        results_are_accounted(registered, connection, id, result, name);
                        let after = registered.result_sent(connection, id, result).0;
                        unsubscribing_is_accounted(after, subscription, name);
                    },
                    None => cold_requests_are_accounted(
                        registered,
                        WaiterView {
                            project_id: project,
                            connection,
                            request_id: id,
                            kind: WaitKindView::Subscribe(subscription),
                        },
                        now,
                        name,
                    ),
                }
            }
        },
    }
}

proof fn unsubscriptions_are_accounted(view: ServerView, connection: ConnectionId, id: Seq<char>, params: JsonView, name: CounterName)
    requires
        enough(view, name, 0),
    ensures
        moves_by(view, view.unsubscribed(connection, id, params), name, 0),
{
    errors_are_accounted(view, connection, id, "invalid_params"@, "subscriptionId is required"@, name);
    errors_are_accounted(
        view,
        connection,
        id,
        "unknown_subscription"@,
        "subscription is not owned by this connection"@,
        name,
    );
    match json_field(params, "subscriptionId"@) {
        Some(JsonView::Text(subscription)) => {
            unsubscribing_is_accounted(view, subscription, name);
            results_are_accounted(
                view.without_subscription(subscription),
                connection,
                id,
                unsubscribe_result(),
                name,
            );
        },
        _ => {},
    }
}

proof fn requests_are_accounted(view: ServerView, connection: ConnectionId, parsed: Result<JsonView, Seq<char>>, now: Duration, name: CounterName)
    requires
        enough(view, name, 0),
    ensures
        moves_by(view, view.frame_handled(connection, parsed, now), name, 0),
{
    let refused_id = match parsed {
        Ok(json) => match json_field(json, "id"@) {
            Some(JsonView::Text(id)) => id,
            _ => ""@,
        },
        Err(_) => ""@,
    };
    let request = match parsed {
        Ok(json) => read_envelope(json),
        Err(_) => None,
    };
    match request {
        Some(EnvelopeView::Request { version, id, method, params }) => {
            if version != crate::envelope::PROTOCOL_VERSION {
                let code = "unsupported_version"@;
                let message = "unsupported protocol major version"@;
                errors_are_accounted(view, connection, id, code, message, name);
                closing_is_accounted(view.error_sent(connection, id, code, message), connection, name);
            } else {
                errors_are_accounted(view, connection, id, "invalid_params"@, "params must be an object"@, name);
                match method {
                    MethodView::ServerHello => {
                        results_are_accounted(view, connection, id, hello_result(view.server_version), name);
                    },
                    MethodView::ProjectList => {
                        results_are_accounted(view, connection, id, list_result(view.projects), name);
                    },
                    MethodView::SnapshotGet => {
                        gets_are_accounted(view, connection, id, params, now, name);
                    },
                    MethodView::SnapshotSubscribe => {
                        subscriptions_are_accounted(view, connection, id, params, now, name);
                    },
                    MethodView::SnapshotUnsubscribe => {
                        unsubscriptions_are_accounted(view, connection, id, params, name);
                    },
                    MethodView::Unknown(_) => {
                        errors_are_accounted(view, connection, id, "unknown_method"@, "unknown request method"@, name);
                    },
                }
            }
        },
        _ => {
            errors_are_accounted(view, connection, refused_id, "invalid_request"@, "expected request envelope"@, name);
        },
    }
}

proof fn registration_is_accounted(view: ServerView, id: Seq<char>, previous: Option<RecordView>, next: Option<RecordView>, watch_retried: bool, name: CounterName)
    requires
        enough(view, name, 0),
    ensures
        moves_by(view, view.registration_changed(id, previous, next, watch_retried).0, name, 0),
{
    let moved = view.renumbered(id, previous, next).cache_moved(id, previous, next);
    let emptied = ServerView { deferred: texts_except(moved.deferred, id), ..moved };
    assert(moves_by(view, emptied, name, 0));
    ended_projects_are_accounted(emptied, id, "project_removed"@, moves(previous, next), name);
    let ended = emptied.project_ended(id, "project_removed"@, moves(previous, next));
    let at = active_place(ended.active, id);
    pushed_effect(ended.effects, EffectView::Cancel { run: ended.active[at] }, name);
    let closed = if ends(previous, next) {
        moved.project_closed(id, moves(previous, next))
    } else {
        moved
    };
    assert(moves_by(view, closed, name, 0));
    broadcasts_are_accounted(
        closed,
        closed.connections,
        "project.updated"@,
        updated_payload(id, event_path(previous, next), event_enabled(next)),
        name,
    );
}

proof fn registrations_are_accounted(view: ServerView, ids: Seq<Seq<char>>, old: Seq<RecordView>, new: Seq<RecordView>, watch_retried: Seq<Seq<char>>, name: CounterName)
    requires
        enough(view, name, 0),
    ensures
        moves_by(view, view.registrations_changed(ids, old, new, watch_retried).0, name, 0),
    decreases ids.len(),
{
    if ids.len() > 0 {
        registrations_are_accounted(view, ids.drop_last(), old, new, watch_retried, name);
        let before = view.registrations_changed(ids.drop_last(), old, new, watch_retried).0;
        let id = ids.last();
        registration_is_accounted(
            before,
            id,
            record_with(old, id),
            record_with(new, id),
            watch_retried.contains(id),
            name,
        );
    }
}

proof fn restarts_are_accounted(view: ServerView, ids: Seq<Seq<char>>, now: Duration, name: CounterName)
    ensures
        moves_by(view, view.all_started(ids, now), name, 0),
    decreases ids.len(),
{
    if ids.len() > 0 {
        restarts_are_accounted(view, ids.drop_last(), now, name);
        let before = view.all_started(ids.drop_last(), now);
        asking_starts_runs(before, ids.last(), now);
        starts_are_accounted(before, before.started(ids.last(), now), name);
    }
}

proof fn registries_are_accounted(view: ServerView, new: Seq<RecordView>, failed: Seq<Seq<char>>, now: Duration, name: CounterName)
    requires
        enough(view, name, 0),
    ensures
        moves_by(view, view.registry_replaced(new, failed, now), name, 0),
{
    let old = view.projects;
    let pending = pending_without(view.pending_watches, unwatched(old, new));
    let rewatched = ServerView { pending_watches: pending_after(new, old, pending, failed), ..view };
    let ids = ids_of(old) + added_ids(new, old);
    let again = retried(new, old, pending, failed);
    registrations_are_accounted(rewatched, ids, old, new, again, name);
    let (changed, restart) = rewatched.registrations_changed(ids, old, new, again);
    restarts_are_accounted(ServerView { projects: new, ..changed }, restart, now, name);
}

proof fn announcements_are_accounted(view: ServerView, list: Seq<RecordView>, name: CounterName)
    ensures
        moves_by(view, view.projects_announced(list), name, 0),
    decreases list.len(),
{
    if list.len() > 0 {
        announcements_are_accounted(view, list.drop_last(), name);
        let before = view.projects_announced(list.drop_last());
        broadcasts_are_accounted(
            before,
            before.connections,
            "project.updated"@,
            updated_payload(list.last().id, list.last().path, true),
            name,
        );
    }
}

proof fn drops_are_accounted(view: ServerView, connections: Seq<ConnectionId>, name: CounterName)
    requires
        enough(view, name, 0),
    ensures
        moves_by(view, view.all_dropped(connections), name, 0),
    decreases connections.len(),
{
    if connections.len() > 0 {
        drops_are_accounted(view, connections.drop_last(), name);
        closing_is_accounted(view.all_dropped(connections.drop_last()), connections.last(), name);
    }
}

proof fn closes_are_accounted(view: ServerView, name: CounterName)
    requires
        enough(view, name, 0),
    ensures
        moves_by(view, view.all_closed(), name, 0),
    decreases view.connections.len(),
{
    if view.connections.len() > 0 {
        let c = view.connections.last().id;
        closing_is_accounted(view, c, name);
        closes_are_accounted(view.closed(c), name);
    }
}

proof fn cancellations_are_accounted(view: ServerView, runs: Seq<RunView>, name: CounterName)
    ensures
        moves_by(view, view.all_cancelled(runs), name, 0),
    decreases runs.len(),
{
    if runs.len() > 0 {
        cancellations_are_accounted(view, runs.drop_last(), name);
        pushed_effect(
            view.all_cancelled(runs.drop_last()).effects,
            EffectView::Cancel { run: runs.last() },
            name,
        );
    }
}

proof fn stopping_is_accounted(view: ServerView, name: CounterName)
    requires
        enough(view, name, 0),
    ensures
        moves_by(view, view.stopping(), name, 0),
{
    cancellations_are_accounted(view, view.active, name);
    cancelling_only_asks(view, view.active);
    let start = ServerView { waiters: Seq::empty(), ..view.all_cancelled(view.active) };
    let message = "snapshot unavailable because the daemon is shutting down"@;
    all_refusals_are_accounted(start, view.waiters, message, name);
    let refused = start.waiters_refused(view.waiters, message);
    let emptied = ServerView { subscriptions: Seq::empty(), ..refused };
    subscriptions_positive(refused.subscriptions, name);
    ended_subscriptions_are_accounted(emptied, refused.subscriptions, "shutdown"@, name);
}

proof fn oversized_frames_are_accounted(view: ServerView, connection: ConnectionId, request: Option<Seq<char>>, name: CounterName)
    requires
        enough(view, name, 0),
    ensures
        moves_by(view, view.oversized(connection, request), name, 0),
{
    match request {
        Some(id) => {
            let code = "frame_too_large"@;
            let message = "frame exceeds maximum size"@;
            errors_are_accounted(view, connection, id, code, message, name);
            closing_is_accounted(view.error_sent(connection, id, code, message), connection, name);
        },
        None => {
            closing_is_accounted(view, connection, name);
        },
    }
}

proof fn ends_of_runs_are_accounted(view: ServerView, run: RunView, result: Result<SnapshotView, FailureView>, now: Duration, name: CounterName)
    requires
        enough(view, name, 0),
    ensures
        moves_by(view, view.finished(run, result, now).deferred_launched(now), name, 0),
{
    finishing_is_accounted(view, run, result, now, name);
    let idle = view.finished(run, result, now);
    deferred_runs_start_in_order(idle, now);
    starts_are_accounted(idle, idle.deferred_launched(now), name);
}

proof fn watches_are_accounted(view: ServerView, installed: Seq<RecordView>, now: Duration, name: CounterName)
    ensures
        moves_by(view, view.watches_installed(installed, now), name, 0),
{
    let settled = ServerView {
        pending_watches: pending_without(view.pending_watches, installed),
        ..view
    }.retry_scheduled(now);
    announcements_are_accounted(settled, installed, name);
}

proof fn nothing_held_moves(a: ServerView, b: ServerView, name: CounterName)
    requires
        b.effects == a.effects,
        b.waiters == a.waiters,
        b.subscriptions == a.subscriptions,
        b.ledger == a.ledger,
        b.limits == a.limits,
        b.connections.len() == a.connections.len(),
    ensures
        moves_by(a, b, name, 0),
{
}

/// Events that send nothing.
proof fn quiet_events_are_accounted(view: ServerView, event: EventView, now: Duration, name: CounterName)
    requires
        event is WriterGone || event is Due || event is Changed || event is Missed || event is Drained,
    ensures
        moves_by(view, view.after(event, now), name, 0),
{
    match event {
        EventView::WriterGone(connection) => {
            connections_are_found(view.connections, connection);
            nothing_held_moves(view, view.writer_gone(connection), name);
        },
        EventView::Due => {
            due_projects_start_runs(view, now);
            starts_are_accounted(view, view.due_started(now), name);
        },
        EventView::Changed(paths) => {
            path_changes_keep(view, paths, now);
            nothing_held_moves(view, view.paths_changed(paths, now), name);
        },
        EventView::Missed => {
            marking_keeps(view, view.projects, now);
            nothing_held_moves(view, view.all_marked(view.projects, now), name);
        },
        EventView::Drained(run) => {
            nothing_held_moves(view, view.run_drained(run), name);
        },
        _ => {},
    }
}

proof fn event_is_accounted(view: ServerView, event: EventView, now: Duration, name: CounterName)
    requires
        enough(view, name, 0),
        !(event is Admitted),
    ensures
        moves_by(view, view.after(event, now), name, 0),
{
    match event {
        EventView::Frame(connection, parsed) => requests_are_accounted(view, connection, parsed, now, name),
        EventView::Oversized(connection, request) => oversized_frames_are_accounted(view, connection, request, name),
        EventView::SnapshotDone(run, result) => ends_of_runs_are_accounted(view, run, result, now, name),
        EventView::Registry(new, failed) => registries_are_accounted(view, new, failed, now, name),
        EventView::Watched(installed) => watches_are_accounted(view, installed, now, name),
        EventView::Gone(connections) => drops_are_accounted(view, connections, name),
        EventView::Stopping => stopping_is_accounted(view, name),
        EventView::Closing => closes_are_accounted(view, name),
        _ => quiet_events_are_accounted(view, event, now, name),
    }
}

proof fn messages_positive(list: Seq<WriterMessageView>, name: CounterName)
    ensures
        messages_hold(list, name) >= 0,
    decreases list.len(),
{
    if list.len() > 0 {
        messages_positive(list.drop_last(), name);
    }
}

// ---------------------------------------------------------------------------
// Queues

/// The connection that a message is for.
pub open spec fn addressee(message: WriterMessageView) -> ConnectionId {
    match message {
        WriterMessageView::Frame(frame) => frame.connection,
        WriterMessageView::Terminal(frame) => match (frame.required_deliveries, frame.accounted) {
            (Some(connection), _) => connection,
            (None, Some(outbound)) => outbound.connection,
            (None, None) => 0,
        },
        WriterMessageView::Close => 0,
    }
}

/// Every message is for the connection that it names.
pub open spec fn all_addressed(list: Seq<WriterMessageView>) -> bool {
    forall|i: int| 0 <= i < list.len() ==> is_for(#[trigger] list[i], addressee(list[i]))
}

/// Whether a message takes a place in the queue of a connection: a frame until
/// its writing begins, and the last frame of a request or subscription until
/// it is written.
pub open spec fn in_queue(message: WriterMessageView, connection: ConnectionId) -> int {
    let takes_place = match message {
        WriterMessageView::Frame(frame) => frame.connection == connection && frame.writer_slot is Some,
        WriterMessageView::Terminal(_) => addressee(message) == connection,
        WriterMessageView::Close => false,
    };
    if takes_place {
        1
    } else {
        0
    }
}

/// How many of the messages are in the queue of a connection.
pub open spec fn queue_length(list: Seq<WriterMessageView>, connection: ConnectionId) -> int
    decreases list.len(),
{
    if list.len() == 0 {
        0
    } else {
        queue_length(list.drop_last(), connection) + in_queue(list.last(), connection)
    }
}

proof fn queued_messages_hold_places(list: Seq<WriterMessageView>, connection: ConnectionId)
    requires
        all_addressed(list),
    ensures
        messages_hold(list, CounterName::RequiredDeliveries(connection)) <= queue_length(list, connection),
        queue_length(list, connection) <= messages_hold(list, CounterName::WriterFrames(connection)) + messages_hold(
            list,
            CounterName::Waiters,
        ) + messages_hold(list, CounterName::ConnectionSubscriptions(connection)),
    decreases list.len(),
{
    if list.len() > 0 {
        let before = list.drop_last();
        assert forall|i: int| 0 <= i < before.len() implies is_for(#[trigger] before[i], addressee(before[i])) by {
            assert(list[i] == before[i]);
        }
        queued_messages_hold_places(before, connection);
        assert(is_for(list[list.len() - 1], addressee(list.last())));
    }
}

proof fn handed_out_are_addressed(effects: Seq<EffectView>)
    requires
        addressed(effects),
    ensures
        all_addressed(handed_out(effects)),
    decreases effects.len(),
{
    if effects.len() > 0 {
        let before = effects.drop_last();
        assert forall|i: int| 0 <= i < before.len() implies effect_is_addressed(#[trigger] before[i]) by {
            assert(effects[i] == before[i]);
        }
        handed_out_are_addressed(before);
        assert(effect_is_addressed(effects[effects.len() - 1]));
    }
}

/// The queue of a connection never holds more than the limits allow: frames,
/// answers to waiting requests, and ends of its subscriptions. So the last
/// frame of a request or subscription always finds a place.
pub proof fn queues_are_bounded(view: ServerView, writing: Seq<WriterMessageView>, connection: ConnectionId)
    requires
        accounted(view, writing),
        in_limits(view),
        addressed(view.effects),
        all_addressed(writing),
    ensures
        queue_length(writing, connection) + queue_length(handed_out(view.effects), connection) <= view.limits.queue_places(),
        view.limits.queue_places() < usize::MAX ==> queue_length(writing, connection) + queue_length(
            handed_out(view.effects),
            connection,
        ) < view.limits.writer_places(),
{
    let frames = CounterName::WriterFrames(connection);
    let subscriptions = CounterName::ConnectionSubscriptions(connection);
    queued_messages_hold_places(writing, connection);
    handed_out_are_addressed(view.effects);
    queued_messages_hold_places(handed_out(view.effects), connection);
    holders_are_in_limit(view, writing, frames);
    holders_are_in_limit(view, writing, CounterName::Waiters);
    holders_are_in_limit(view, writing, subscriptions);
}

proof fn holders_are_in_limit(view: ServerView, writing: Seq<WriterMessageView>, name: CounterName)
    requires
        accounted(view, writing),
        in_limits(view),
        !(name is RequiredDeliveries),
    ensures
        messages_hold(writing, name) + messages_hold(handed_out(view.effects), name) <= limit_for(view.limits, name),
{
    assert(counted(view.limits, name));
    holdings_are_positive(view, name);
    handed_out_messages(view.effects, name);
    assert(view.ledger[name] <= limit_for(view.limits, name));
}

/// Whatever happens, no place, no byte and no owed frame is lost or counted
/// twice, and none is given out beyond its limit.
pub proof fn events_keep_the_accounts(view: ServerView, writing: Seq<WriterMessageView>, event: EventView, now: Duration)
    requires
        accounted(view, writing),
        in_limits(view),
        addressed(view.effects),
        all_addressed(writing),
        view.allows(event),
    ensures
        accounted(view.after(event, now), writing),
        in_limits(view.after(event, now)),
        addressed(view.after(event, now).effects),
        view.after(event, now).limits == view.limits,
        !(event is Admitted) ==> view.after(event, now).connections.len() <= view.connections.len(),
{
    if event is Admitted {
        admissions_keep_the_accounts(view, writing);
    } else {
        other_events_keep_the_accounts(view, writing, event, now);
    }
}

proof fn admissions_keep_the_accounts(view: ServerView, writing: Seq<WriterMessageView>)
    requires
        accounted(view, writing),
        in_limits(view),
    ensures
        accounted(view.admitted(), writing),
        in_limits(view.admitted()),
{
    let next = view.admitted();
    assert forall|name: CounterName| #[trigger] counted(next.limits, name) implies elsewhere(next, name) == messages_hold(writing, name) by {
        assert(counted(view.limits, name));
        assert(elsewhere(view, name) == messages_hold(writing, name));
    }
    assert forall|name: CounterName| #[trigger] next.ledger[name] <= limit_for(next.limits, name) by {
        assert(view.ledger[name] <= limit_for(view.limits, name));
    }
}

proof fn other_events_keep_the_accounts(view: ServerView, writing: Seq<WriterMessageView>, event: EventView, now: Duration)
    requires
        accounted(view, writing),
        in_limits(view),
        addressed(view.effects),
        all_addressed(writing),
        view.allows(event),
        !(event is Admitted),
    ensures
        accounted(view.after(event, now), writing),
        in_limits(view.after(event, now)),
        addressed(view.after(event, now).effects),
        view.after(event, now).limits == view.limits,
        view.after(event, now).connections.len() <= view.connections.len(),
{
    let next = view.after(event, now);
    assert forall|name: CounterName| #[trigger] counted(view.limits, name) implies moves_by(view, next, name, 0) by {
        messages_positive(writing, name);
        assert(elsewhere(view, name) == messages_hold(writing, name));
        event_is_accounted(view, event, now, name);
    }
    assert(counted(view.limits, CounterName::Waiters));
    assert(moves_by(view, next, CounterName::Waiters, 0));
    assert forall|name: CounterName| #[trigger] next.ledger[name] <= limit_for(next.limits, name) by {
        if !(name is RequiredDeliveries) {
            assert(counted(view.limits, name));
            assert(moves_by(view, next, name, 0));
            assert(view.ledger[name] <= limit_for(view.limits, name));
        }
    }
    assert forall|name: CounterName| #[trigger] counted(next.limits, name) implies elsewhere(next, name) == messages_hold(writing, name) by {
        assert(counted(view.limits, name));
        assert(moves_by(view, next, name, 0));
        assert(elsewhere(view, name) == messages_hold(writing, name));
        match name {
            CounterName::RequiredDeliveries(connection) => {
                let frames = CounterName::WriterFrames(connection);
                let subscriptions = CounterName::ConnectionSubscriptions(connection);
                next_holders_are_in_limit(view, next, writing, frames);
                next_holders_are_in_limit(view, next, writing, CounterName::Waiters);
                next_holders_are_in_limit(view, next, writing, subscriptions);
                queued_messages_hold_places(writing, connection);
                handed_out_are_addressed(next.effects);
                queued_messages_hold_places(handed_out(next.effects), connection);
                handed_out_messages(next.effects, name);
            },
            _ => {},
        }
    }
}

proof fn next_holders_are_in_limit(view: ServerView, next: ServerView, writing: Seq<WriterMessageView>, name: CounterName)
    requires
        accounted(view, writing),
        in_limits(next),
        next.limits == view.limits,
        !(name is RequiredDeliveries),
        counted(view.limits, name) ==> moves_by(view, next, name, 0),
    ensures
        messages_hold(writing, name) + messages_hold(handed_out(next.effects), name) <= limit_for(next.limits, name),
{
    assert(counted(view.limits, name));
    assert(elsewhere(view, name) == messages_hold(writing, name));
    holdings_are_positive(next, name);
    handed_out_messages(next.effects, name);
    assert(next.ledger[name] <= limit_for(next.limits, name));
}

// ---------------------------------------------------------------------------
// The writers

/// The messages among the things to be done outside.
pub open spec fn handed_out(effects: Seq<EffectView>) -> Seq<WriterMessageView>
    decreases effects.len(),
{
    if effects.len() == 0 {
        Seq::empty()
    } else {
        match effects.last() {
            EffectView::Deliver { message, .. } => handed_out(effects.drop_last()).push(message),
            _ => handed_out(effects.drop_last()),
        }
    }
}

proof fn joined_messages(a: Seq<WriterMessageView>, b: Seq<WriterMessageView>, name: CounterName)
    ensures
        messages_hold(a + b, name) == messages_hold(a, name) + messages_hold(b, name),
    decreases b.len(),
{
    if b.len() == 0 {
        assert(a + b =~= a);
    } else {
        joined_messages(a, b.drop_last(), name);
        assert((a + b).drop_last() =~= a + b.drop_last());
    }
}

proof fn handed_out_messages(effects: Seq<EffectView>, name: CounterName)
    ensures
        messages_hold(handed_out(effects), name) == effects_hold(effects, name),
    decreases effects.len(),
{
    if effects.len() > 0 {
        handed_out_messages(effects.drop_last(), name);
        match effects.last() {
            EffectView::Deliver { message, .. } => {
                let before = handed_out(effects.drop_last());
                assert(before.push(message).drop_last() =~= before);
            },
            _ => {},
        }
    }
}

/// Handing the messages to the writers keeps the accounts.
pub proof fn handing_out_keeps_the_accounts(view: ServerView, writing: Seq<WriterMessageView>)
    requires
        accounted(view, writing),
    ensures
        accounted(ServerView { effects: Seq::empty(), ..view }, writing + handed_out(view.effects)),
        all_addressed(writing) && addressed(view.effects) ==> all_addressed(writing + handed_out(view.effects)),
{
    if addressed(view.effects) {
        handed_out_are_addressed(view.effects);
    }
    let emptied = ServerView { effects: Seq::empty(), ..view };
    assert forall|name: CounterName| #[trigger] counted(view.limits, name) implies elsewhere(emptied, name) == messages_hold(
        writing + handed_out(view.effects),
        name,
    ) by {
        assert(elsewhere(view, name) == messages_hold(writing, name));
        joined_messages(writing, handed_out(view.effects), name);
        handed_out_messages(view.effects, name);
    }
}

/// What a message holds is given back.
pub open spec fn message_released(ledger: LedgerView, message: WriterMessageView) -> LedgerView {
    match message {
        WriterMessageView::Frame(frame) => outbound_released(ledger, frame),
        WriterMessageView::Terminal(frame) => terminal_released(ledger, frame),
        WriterMessageView::Close => ledger,
    }
}

/// A message as the daemon makes them: its bytes can be counted and no permit
/// names one quantity twice.
pub open spec fn well_formed(message: WriterMessageView) -> bool {
    match message {
        WriterMessageView::Frame(frame) => outbound_well_formed(frame),
        WriterMessageView::Terminal(frame) => {
            &&& frame.capacity.secondary != Some(frame.capacity.primary)
            &&& frame.accounted matches Some(outbound) ==> outbound_well_formed(outbound)
        },
        WriterMessageView::Close => true,
    }
}

pub open spec fn outbound_well_formed(frame: OutboundView) -> bool {
    &&& frame.bytes.len() <= usize::MAX
    &&& frame.writer_slot matches Some(slot) ==> slot.secondary != Some(slot.primary)
}

proof fn outbound_given_back(ledger: LedgerView, frame: OutboundView, name: CounterName)
    requires
        outbound_well_formed(frame),
        ledger[name] >= outbound_holds(frame, name),
    ensures
        outbound_released(ledger, frame)[name] == ledger[name] - outbound_holds(frame, name),
{
    match frame.writer_slot {
        Some(slot) => given_back(ledger, slot, name),
        None => {},
    }
}

proof fn message_given_back(ledger: LedgerView, message: WriterMessageView, name: CounterName)
    requires
        well_formed(message),
        ledger[name] >= message_holds(message, name),
    ensures
        message_released(ledger, message)[name] == ledger[name] - message_holds(message, name),
{
    match message {
        WriterMessageView::Frame(frame) => outbound_given_back(ledger, frame, name),
        WriterMessageView::Terminal(frame) => {
            let after = match frame.accounted {
                Some(outbound) => {
                    outbound_given_back(ledger, outbound, name);
                    outbound_released(ledger, outbound)
                },
                None => ledger,
            };
            given_back(after, frame.capacity, name);
        },
        WriterMessageView::Close => {},
    }
}

proof fn removed_message(list: Seq<WriterMessageView>, at: int, name: CounterName)
    requires
        0 <= at < list.len(),
    ensures
        messages_hold(list.remove(at), name) == messages_hold(list, name) - message_holds(list[at], name),
    decreases list.len(),
{
    if at == list.len() - 1 {
        assert(list.remove(at) =~= list.drop_last());
    } else {
        removed_message(list.drop_last(), at, name);
        assert(list.remove(at).drop_last() =~= list.drop_last().remove(at));
        assert(list.remove(at).last() == list.last());
    }
}

proof fn updated_message(list: Seq<WriterMessageView>, at: int, message: WriterMessageView, name: CounterName)
    requires
        0 <= at < list.len(),
    ensures
        messages_hold(list.update(at, message), name) == messages_hold(list, name) - message_holds(list[at], name)
            + message_holds(message, name),
    decreases list.len(),
{
    if at == list.len() - 1 {
        assert(list.update(at, message).drop_last() =~= list.drop_last());
    } else {
        updated_message(list.drop_last(), at, message, name);
        assert(list.update(at, message).drop_last() =~= list.drop_last().update(at, message));
    }
}

proof fn permits_give_back(ledger: LedgerView, permit: CapacityPermit, name: CounterName)
    ensures
        permit_released(ledger, permit)[name] <= ledger[name],
{
}

proof fn outbounds_give_back(ledger: LedgerView, frame: OutboundView, name: CounterName)
    ensures
        slot_released(ledger, frame.writer_slot)[name] <= ledger[name],
        outbound_released(ledger, frame)[name] <= ledger[name],
{
    match frame.writer_slot {
        Some(slot) => permits_give_back(ledger, slot, name),
        None => {},
    }
}

proof fn messages_give_back(ledger: LedgerView, message: WriterMessageView, name: CounterName)
    ensures
        message_released(ledger, message)[name] <= ledger[name],
{
    match message {
        WriterMessageView::Frame(frame) => outbounds_give_back(ledger, frame, name),
        WriterMessageView::Terminal(frame) => {
            let after = match frame.accounted {
                Some(outbound) => {
                    outbounds_give_back(ledger, outbound, name);
                    outbound_released(ledger, outbound)
                },
                None => ledger,
            };
            permits_give_back(after, frame.capacity, name);
        },
        WriterMessageView::Close => {},
    }
}

proof fn releasing_keeps_limits(view: ServerView, message: WriterMessageView)
    ensures
        in_limits(view) ==> in_limits(view.with_ledger(message_released(view.ledger, message))),
        in_limits(view) && message is Frame ==> in_limits(
            view.with_ledger(slot_released(view.ledger, message->Frame_0.writer_slot)),
        ),
{
    if in_limits(view) {
        let after = message_released(view.ledger, message);
        assert forall|name: CounterName| #[trigger] after[name] <= limit_for(view.limits, name) by {
            assert(view.ledger[name] <= limit_for(view.limits, name));
            messages_give_back(view.ledger, message, name);
        }
        if message is Frame {
            let begun = slot_released(view.ledger, message->Frame_0.writer_slot);
            assert forall|name: CounterName| #[trigger] begun[name] <= limit_for(view.limits, name) by {
                assert(view.ledger[name] <= limit_for(view.limits, name));
                outbounds_give_back(view.ledger, message->Frame_0, name);
            }
        }
    }
}

/// A writer that takes a frame out of its queue gives back exactly the place
/// that the frame held there.
pub proof fn begun_writes_keep_the_accounts(view: ServerView, writing: Seq<WriterMessageView>, at: int)
    requires
        accounted(view, writing),
        0 <= at < writing.len(),
        well_formed(writing[at]),
        writing[at] is Frame,
    ensures
        ({
            let frame = writing[at]->Frame_0;
            accounted(
                view.with_ledger(slot_released(view.ledger, frame.writer_slot)),
                writing.update(at, WriterMessageView::Frame(OutboundView { writer_slot: None, ..frame })),
            )
        }),
        in_limits(view) ==> in_limits(view.with_ledger(slot_released(view.ledger, writing[at]->Frame_0.writer_slot))),
        all_addressed(writing) ==> all_addressed(
            writing.update(at, WriterMessageView::Frame(OutboundView { writer_slot: None, ..writing[at]->Frame_0 })),
        ),
{
    releasing_keeps_limits(view, writing[at]);
    let frame = writing[at]->Frame_0;
    let begun = WriterMessageView::Frame(OutboundView { writer_slot: None, ..frame });
    let after = view.with_ledger(slot_released(view.ledger, frame.writer_slot));
    assert forall|name: CounterName| #[trigger] counted(view.limits, name) implies elsewhere(after, name) == messages_hold(
        writing.update(at, begun),
        name,
    ) by {
        assert(elsewhere(view, name) == messages_hold(writing, name));
        holdings_are_positive(view, name);
        removed_message(writing, at, name);
        messages_positive(writing.remove(at), name);
        updated_message(writing, at, begun, name);
        match frame.writer_slot {
            Some(slot) => given_back(view.ledger, slot, name),
            None => {},
        }
    }
}

/// A writer that is done with a message gives back exactly what the message
/// holds.
pub proof fn written_messages_keep_the_accounts(view: ServerView, writing: Seq<WriterMessageView>, at: int)
    requires
        accounted(view, writing),
        0 <= at < writing.len(),
        well_formed(writing[at]),
    ensures
        accounted(view.with_ledger(message_released(view.ledger, writing[at])), writing.remove(at)),
        in_limits(view) ==> in_limits(view.with_ledger(message_released(view.ledger, writing[at]))),
        all_addressed(writing) ==> all_addressed(writing.remove(at)),
{
    releasing_keeps_limits(view, writing[at]);
    let after = view.with_ledger(message_released(view.ledger, writing[at]));
    assert forall|name: CounterName| #[trigger] counted(view.limits, name) implies elsewhere(after, name) == messages_hold(
        writing.remove(at),
        name,
    ) by {
        assert(elsewhere(view, name) == messages_hold(writing, name));
        holdings_are_positive(view, name);
        removed_message(writing, at, name);
        messages_positive(writing.remove(at), name);
        message_given_back(view.ledger, writing[at], name);
    }
}

/// Closing or dropping a connection gives back exactly what it held; so does
/// giving up a subscription.
pub(crate) proof fn what_is_given_up_is_given_back(view: ServerView, writing: Seq<WriterMessageView>, connection: ConnectionId, id: Seq<char>, name: CounterName)
    requires
        accounted(view, writing),
        !(name is RequiredDeliveries),
    ensures
        elsewhere(view, name) == messages_hold(writing, name) >= 0,
        elsewhere(view.closed(connection), name) == elsewhere(view, name),
        elsewhere(view.dropped(connection), name) == elsewhere(view, name),
        elsewhere(view.without_subscription(id), name) == elsewhere(view, name),
        effects_hold(view.closed(connection).effects, name) == effects_hold(view.effects, name) >= 0,
        effects_hold(view.dropped(connection).effects, name) == effects_hold(view.effects, name),
{
    assert(counted(view.limits, name));
    messages_positive(writing, name);
    holdings_are_positive(view, name);
    closing_is_accounted(view, connection, name);
    unsubscribing_is_accounted(view, id, name);
    if view.connected(connection) {
        let after = view.without_connection(connection);
        pushed_effect(
            after.effects,
            EffectView::Close {
                connection,
                await_delivery: after.ledger[CounterName::RequiredDeliveries(connection)] > 0,
            },
            name,
        );
        pushed_effect(after.effects, EffectView::Drop { connection }, name);
    }
}

/// What subscriptions hold are their own places and nothing else.
pub(crate) proof fn subscriptions_hold_their_places(list: Seq<SubscriptionView>, connection: ConnectionId)
    ensures
        subscriptions_hold(list, CounterName::ConnectionSubscriptions(connection)) == subscriptions_on(list, connection).len(),
        subscriptions_hold(list, CounterName::GlobalSubscriptions) == list.len(),
        list.len() == subscriptions_on(list, connection).len() + subscriptions_off(list, connection).len(),
    decreases list.len(),
{
    if list.len() > 0 {
        subscriptions_hold_their_places(list.drop_last(), connection);
    }
}

/// When nothing is under way nothing is held: with no waiting request, no
/// subscription and no message the ledger is empty.
pub proof fn an_idle_daemon_holds_nothing(view: ServerView, name: CounterName)
    requires
        accounted(view, Seq::empty()),
        view.effects.len() == 0,
        view.waiters.len() == 0,
        view.subscriptions.len() == 0,
        counted(view.limits, name),
    ensures
        view.ledger[name] == 0,
{
    assert(elsewhere(view, name) == messages_hold(Seq::empty(), name));
}

} // verus!
