//! What everyone is told when a project ends, and when the daemon does.

use crate::envelope::{error_message, event_message};
use crate::json::{json_field, JsonView};
use crate::message_laws::{ends_name_the_subscription, events_say_their_name, refusals_answer_their_request};
use crate::protocol::CounterName;
use crate::server::answers::{additions_add_up, ending_reaches, nothing_is_added, one_is_added,
    only_adds_effects, stopping_answers_everyone, told_or_lost, what_is_told_lasts};
use crate::server::endings::ended_payload;
use crate::server::events::{cancelling_only_asks, refusing_only_sends};
use crate::server::lists::{runs_are_found, subscriptions_for_is_a_part, waiters_for_is_a_part};
use crate::server::membership::clients_sound;
use crate::server::model::{active_place, subscriptions_beside, subscriptions_for, texts_except, waiter_permit, waiters_for,
    EffectView, RunView, ServerView, SubscriptionView, WaitKindView, WaiterView};
use crate::server::replacement::ending_only_sends;
use vstd::prelude::*;

verus! {

/// The document tells the owner of a subscription that it ended, and why.
pub open spec fn tells_the_end(document: JsonView, subscription: Seq<char>, reason: Seq<char>) -> bool {
    let payload = json_field(document, "payload"@)->0;
    &&& json_field(document, "v"@) == Some(JsonView::Unsigned(1))
    &&& json_field(document, "kind"@) == Some(JsonView::Text("event"@))
    &&& json_field(document, "name"@) == Some(JsonView::Text("subscription.ended"@))
    &&& json_field(payload, "subscriptionId"@) == Some(JsonView::Text(subscription))
    &&& json_field(payload, "reason"@) == Some(JsonView::Text(reason))
}

/// The owner of the subscription was told of its end, or lost the connection.
pub open spec fn was_told_the_end(a: ServerView, b: ServerView, subscription: SubscriptionView, reason: Seq<char>) -> bool {
    exists|document: JsonView|
        #[trigger] told_or_lost(a, b, subscription.connection, document) && tells_the_end(document, subscription.id, reason)
}

/// The document refuses a waiting request, and says why.
pub open spec fn turns_away(document: JsonView, request: Seq<char>, message: Seq<char>) -> bool {
    let error = json_field(document, "error"@)->0;
    &&& json_field(document, "v"@) == Some(JsonView::Unsigned(1))
    &&& json_field(document, "kind"@) == Some(JsonView::Text("res"@))
    &&& json_field(document, "id"@) == Some(JsonView::Text(request))
    &&& json_field(document, "ok"@) == Some(JsonView::Bool(false))
    &&& json_field(error, "code"@) == Some(JsonView::Text("unavailable"@))
    &&& json_field(error, "message"@) == Some(JsonView::Text(message))
}

/// The waiting request was turned away, or its connection lost.
pub open spec fn was_turned_away(a: ServerView, b: ServerView, waiter: WaiterView, message: Seq<char>) -> bool {
    exists|document: JsonView|
        #[trigger] told_or_lost(a, b, waiter.connection, document) && turns_away(document, waiter.request_id, message)
}

proof fn ends_are_told(a: ServerView, b: ServerView, subscription: SubscriptionView, reason: Seq<char>)
    requires
        told_or_lost(a, b, subscription.connection, event_message("subscription.ended"@, ended_payload(subscription.id, reason))),
    ensures
        was_told_the_end(a, b, subscription, reason),
{
    let payload = ended_payload(subscription.id, reason);
    events_say_their_name("subscription.ended"@, payload);
    ends_name_the_subscription(subscription.id, reason);
    assert(tells_the_end(event_message("subscription.ended"@, payload), subscription.id, reason));
}

proof fn one_is_turned_away(view: ServerView, waiter: WaiterView, message: Seq<char>)
    ensures
        ({
            let after = view.waiter_refused(waiter, message);
            &&& only_adds_effects(view, after)
            &&& after.connections == view.connections
            &&& view.connected(waiter.connection) ==> was_turned_away(view, after, waiter, message)
        }),
{
    let document = error_message(waiter.request_id, "unavailable"@, message);
    ending_reaches(view, waiter.connection, document, waiter_permit(), true);
    refusals_answer_their_request(waiter.request_id, "unavailable"@, message);
    assert(turns_away(document, waiter.request_id, message));
}

pub(crate) proof fn refusals_last(a: ServerView, b: ServerView, c: ServerView, d: ServerView, waiter: WaiterView, message: Seq<char>)
    requires
        only_adds_effects(a, b),
        was_turned_away(b, c, waiter, message),
        only_adds_effects(c, d),
    ensures
        was_turned_away(a, d, waiter, message),
{
    let document = choose|document: JsonView|
        #[trigger] told_or_lost(b, c, waiter.connection, document) && turns_away(document, waiter.request_id, message);
    what_is_told_lasts(a, b, c, d, waiter.connection, document);
    assert(told_or_lost(a, d, waiter.connection, document));
}

// ---------------------------------------------------------------------------
// The end of a project

/// Why a request that waits for a project is turned away when the project ends.
pub open spec fn why_turned_away(waiter: WaiterView) -> Seq<char> {
    match waiter.kind {
        WaitKindView::Subscribe(_) => "subscription ended because the project was replaced"@,
        WaitKindView::Get => "snapshot unavailable because the project was removed, disabled, or replaced"@,
    }
}

/// The request was turned away, or it is a plain one that waits on for a
/// project that lives on elsewhere.
pub open spec fn was_settled(a: ServerView, b: ServerView, waiter: WaiterView, lives_on: bool) -> bool {
    if lives_on && waiter.kind is Get {
        b.waiters.contains(waiter)
    } else {
        was_turned_away(a, b, waiter, why_turned_away(waiter))
    }
}

proof fn displaced_requests_are_settled(view: ServerView, list: Seq<WaiterView>, lives_on: bool)
    ensures
        ({
            let after = view.waiters_displaced(list, lives_on);
            &&& only_adds_effects(view, after)
            &&& after.connections == view.connections
            &&& forall|i: int|
                0 <= i < list.len() && view.connected((#[trigger] list[i]).connection) ==> was_settled(view, after, list[i], lives_on)
            &&& forall|w: WaiterView| view.waiters.contains(w) ==> #[trigger] after.waiters.contains(w)
        }),
    decreases list.len(),
{
    let after = view.waiters_displaced(list, lives_on);
    nothing_is_added(view, view);
    if list.len() > 0 {
        let shorter = list.drop_last();
        let last = list.last();
        let before = view.waiters_displaced(shorter, lives_on);
        displaced_requests_are_settled(view, shorter, lives_on);
        if lives_on && last.kind is Get {
            nothing_is_added(before, after);
            assert(after.waiters[before.waiters.len() as int] == last);
        } else {
            one_is_turned_away(before, last, why_turned_away(last));
        }
        additions_add_up(view, before, after);
        nothing_is_added(after, after);
        assert forall|w: WaiterView| before.waiters.contains(w) implies #[trigger] after.waiters.contains(w) by {
            let k = choose|k: int| 0 <= k < before.waiters.len() && before.waiters[k] == w;
            assert(after.waiters[k] == w);
        }
        assert forall|i: int| 0 <= i < list.len() && view.connected((#[trigger] list[i]).connection) implies was_settled(
            view,
            after,
            list[i],
            lives_on,
        ) by {
            if i < shorter.len() {
                assert(shorter[i] == list[i]);
                if !(lives_on && list[i].kind is Get) {
                    refusals_last(view, view, before, after, list[i], why_turned_away(list[i]));
                }
            } else {
                if !(lives_on && last.kind is Get) {
                    refusals_last(view, before, after, after, last, why_turned_away(last));
                } else {
                    assert(after.waiters.contains(last));
                }
            }
        }
    }
}

/// When a project ends every owner of a subscription to it who knows of it is
/// told that the project was removed, every request that waits for it is turned
/// away or waits on at its new place, its command is told to stop, and nothing
/// of it is scheduled any more.
pub proof fn ended_projects_are_wound_up(view: ServerView, id: Seq<char>, lives_on: bool)
    ensures
        ({
            let after = view.project_closed(id, lives_on);
            &&& forall|j: int|
                0 <= j < view.subscriptions.len() && (#[trigger] view.subscriptions[j]).project_id == id && view.subscriptions[j].returned
                    && view.connected(view.subscriptions[j].connection) ==> was_told_the_end(
                    view,
                    after,
                    view.subscriptions[j],
                    "project_removed"@,
                )
            &&& forall|j: int|
                0 <= j < view.waiters.len() && (#[trigger] view.waiters[j]).project_id == id && view.connected(view.waiters[j].connection)
                    ==> was_settled(view, after, view.waiters[j], lives_on)
            &&& forall|k: int|
                0 <= k < view.active.len() && (#[trigger] view.active[k]).record.id == id ==> exists|m: int|
                    0 <= m < view.active.len() && (#[trigger] view.active[m]).record.id == id && after.effects.last() == (EffectView::Cancel {
                        run: view.active[m],
                    })
            &&& after.deferred == view.deferred.filter(|t: Seq<char>| t != id)
            &&& !after.dirty.projects.dom().contains(id)
            &&& forall|other: Seq<char>| other != id ==> #[trigger] after.dirty.projects.dom().contains(other)
                == view.dirty.projects.dom().contains(other)
        }),
{
    let start = ServerView { deferred: texts_except(view.deferred, id), ..view };
    let reason = "project_removed"@;
    let followers = subscriptions_for(view.subscriptions, id);
    let waiting = waiters_for(view.waiters, id);
    let taken = ServerView { subscriptions: subscriptions_beside(start.subscriptions, id), ..start };
    ending_only_sends(taken, followers, reason);
    let told = taken.subscriptions_ended(followers, reason);
    let left = told.waiters_taken(id);
    crate::server::answers::endings_reach_all(taken, followers, reason);
    displaced_requests_are_settled(left, waiting, lives_on);
    let ended = start.project_ended(id, reason, lives_on);
    crate::server::events::ending_touches_clients_only(start, id, reason, lives_on);
    let cancelled = ended.run_cancelled(id);
    let after = view.project_closed(id, lives_on);
    nothing_is_added(view, taken);
    nothing_is_added(told, left);
    additions_add_up(view, taken, told);
    additions_add_up(view, told, left);
    if active_place(ended.active, id) >= 0 {
        one_is_added(ended, cancelled, cancelled.effects.last());
    } else {
        nothing_is_added(ended, cancelled);
    }
    nothing_is_added(cancelled, after);
    additions_add_up(ended, cancelled, after);
    additions_add_up(left, ended, after);
    additions_add_up(told, left, after);
    crate::server::lists::texts_except_is_a_part(view.deferred, id);
    runs_are_found(view.active, id);
    assert(ended.active == view.active);
    if exists|k: int| 0 <= k < view.active.len() && (#[trigger] view.active[k]).record.id == id {
        let m = active_place(view.active, id);
        assert(view.active[m].record.id == id);
        assert(after.effects.last() == (EffectView::Cancel { run: view.active[m] }));
    }
    broadcast use vstd::seq_lib::group_filter_ensures;
    assert forall|j: int|
        0 <= j < view.subscriptions.len() && (#[trigger] view.subscriptions[j]).project_id == id && view.subscriptions[j].returned
            && view.connected(view.subscriptions[j].connection) implies was_told_the_end(view, after, view.subscriptions[j], reason) by {
        let subscription = view.subscriptions[j];
        subscriptions_for_is_a_part(view.subscriptions, id);
        assert(view.subscriptions.filter(|s: SubscriptionView| s.project_id == id).contains(subscription));
        let i = choose|i: int| 0 <= i < followers.len() && followers[i] == subscription;
        assert(taken.connected(followers[i].connection));
        what_is_told_lasts(
            view,
            taken,
            told,
            after,
            subscription.connection,
            event_message("subscription.ended"@, ended_payload(subscription.id, reason)),
        );
        ends_are_told(view, after, subscription, reason);
    }
    assert forall|j: int|
        0 <= j < view.waiters.len() && (#[trigger] view.waiters[j]).project_id == id && view.connected(view.waiters[j].connection) implies was_settled(
        view,
        after,
        view.waiters[j],
        lives_on,
    ) by {
        let waiter = view.waiters[j];
        waiters_for_is_a_part(view.waiters, id);
        assert(view.waiters.filter(|w: WaiterView| w.project_id == id).contains(waiter));
        let i = choose|i: int| 0 <= i < waiting.len() && waiting[i] == waiter;
        assert(left.connected(waiting[i].connection));
        assert(was_settled(left, ended, waiting[i], lives_on));
        if !(lives_on && waiter.kind is Get) {
            refusals_last(view, left, ended, after, waiter, why_turned_away(waiter));
        }
    }
}

// ---------------------------------------------------------------------------
// The end of the daemon

proof fn all_are_turned_away(view: ServerView, list: Seq<WaiterView>, message: Seq<char>)
    ensures
        ({
            let after = view.waiters_refused(list, message);
            &&& only_adds_effects(view, after)
            &&& after.connections == view.connections
            &&& forall|i: int|
                0 <= i < list.len() && view.connected((#[trigger] list[i]).connection) ==> was_turned_away(view, after, list[i], message)
        }),
    decreases list.len(),
{
    let after = view.waiters_refused(list, message);
    nothing_is_added(view, view);
    if list.len() > 0 {
        let shorter = list.drop_last();
        let before = view.waiters_refused(shorter, message);
        all_are_turned_away(view, shorter, message);
        one_is_turned_away(before, list.last(), message);
        additions_add_up(view, before, after);
        nothing_is_added(after, after);
        assert forall|i: int| 0 <= i < list.len() && view.connected((#[trigger] list[i]).connection) implies was_turned_away(
            view,
            after,
            list[i],
            message,
        ) by {
            if i < shorter.len() {
                assert(shorter[i] == list[i]);
                refusals_last(view, view, before, after, list[i], message);
            } else {
                refusals_last(view, before, after, after, list[i], message);
            }
        }
    }
}

proof fn all_runs_are_stopped(view: ServerView, runs: Seq<RunView>)
    ensures
        view.all_cancelled(runs).effects == view.effects + Seq::new(runs.len(), |i: int| EffectView::Cancel { run: runs[i] }),
        only_adds_effects(view, view.all_cancelled(runs)),
    decreases runs.len(),
{
    let after = view.all_cancelled(runs);
    if runs.len() > 0 {
        all_runs_are_stopped(view, runs.drop_last());
    }
    assert(after.effects =~= view.effects + Seq::new(runs.len(), |i: int| EffectView::Cancel { run: runs[i] }));
    assert(after.effects.take(view.effects.len() as int) =~= view.effects);
}

/// A daemon that stops tells every running command to stop, first of all,
/// turns every waiting request away, and tells everyone of the end of the
/// subscriptions that they know of. Nobody waits or follows any longer.
pub proof fn stopping_winds_everything_up(view: ServerView)
    requires
        clients_sound(view),
    ensures
        ({
            let after = view.stopping();
            &&& after.waiters.len() == 0
            &&& after.subscriptions.len() == 0
            &&& forall|i: int|
                0 <= i < view.active.len() ==> after.effects[view.effects.len() + i] == (EffectView::Cancel { run: #[trigger] view.active[i] })
            &&& forall|i: int|
                0 <= i < view.waiters.len() ==> was_turned_away(
                    view,
                    after,
                    #[trigger] view.waiters[i],
                    "snapshot unavailable because the daemon is shutting down"@,
                )
            &&& forall|i: int|
                0 <= i < view.subscriptions.len() && (#[trigger] view.subscriptions[i]).returned ==> was_told_the_end(
                    view,
                    after,
                    view.subscriptions[i],
                    "shutdown"@,
                )
        }),
{
    let asked = view.all_cancelled(view.active);
    cancelling_only_asks(view, view.active);
    all_runs_are_stopped(view, view.active);
    let start = ServerView { waiters: Seq::empty(), ..asked };
    let message = "snapshot unavailable because the daemon is shutting down"@;
    nothing_is_added(asked, start);
    additions_add_up(view, asked, start);
    refusing_only_sends(start, view.waiters, message);
    all_are_turned_away(start, view.waiters, message);
    let refused = start.waiters_refused(view.waiters, message);
    let emptied = ServerView { subscriptions: Seq::empty(), ..refused };
    nothing_is_added(refused, emptied);
    ending_only_sends(emptied, refused.subscriptions, "shutdown"@);
    crate::server::answers::endings_reach_all(emptied, refused.subscriptions, "shutdown"@);
    let after = view.stopping();
    additions_add_up(refused, emptied, after);
    additions_add_up(start, refused, after);
    additions_add_up(asked, start, after);
    stopping_answers_everyone(view);
    assert forall|i: int| 0 <= i < view.active.len() implies after.effects[view.effects.len() + i] == (EffectView::Cancel {
        run: #[trigger] view.active[i],
    }) by {
        assert(asked.effects[view.effects.len() + i] == (EffectView::Cancel { run: view.active[i] }));
        assert(after.effects.take(asked.effects.len() as int)[view.effects.len() + i] == after.effects[view.effects.len() + i]);
    }
    assert forall|i: int| 0 <= i < view.waiters.len() implies was_turned_away(view, after, #[trigger] view.waiters[i], message) by {
        assert(view.connected(view.waiters[i].connection));
        assert(start.connected(view.waiters[i].connection));
        refusals_last(view, start, refused, after, view.waiters[i], message);
    }
    assert forall|i: int| 0 <= i < view.subscriptions.len() && (#[trigger] view.subscriptions[i]).returned implies was_told_the_end(
        view,
        after,
        view.subscriptions[i],
        "shutdown"@,
    ) by {
        ends_are_told(view, after, view.subscriptions[i], "shutdown"@);
    }
}

/// A subscription that was never confirmed ends in silence, and its places are
/// free again.
pub proof fn unconfirmed_subscriptions_end_in_silence(view: ServerView, subscription: SubscriptionView, reason: Seq<char>)
    requires
        !subscription.returned,
        view.ledger[CounterName::ConnectionSubscriptions(subscription.connection)] > 0,
        view.ledger[CounterName::GlobalSubscriptions] > 0,
    ensures
        ({
            let after = view.subscription_ended(subscription, reason);
            let own = CounterName::ConnectionSubscriptions(subscription.connection);
            &&& after == (ServerView { ledger: after.ledger, ..view })
            &&& after.ledger[own] == view.ledger[own] - 1
            &&& after.ledger[CounterName::GlobalSubscriptions] == view.ledger[CounterName::GlobalSubscriptions] - 1
            &&& forall|name: CounterName|
                name != own && name != CounterName::GlobalSubscriptions ==> #[trigger] after.ledger[name] == view.ledger[name]
        }),
{
}

} // verus!
