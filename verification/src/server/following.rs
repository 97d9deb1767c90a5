//! Subscriptions are told apart by their ids, and none is forgotten: one that
//! its client does not know of yet has a request that waits for it.

use crate::envelope::{read_envelope, EnvelopeView, MethodView};
use crate::json::{json_field, JsonView};
use crate::limits::Limits;
use crate::parse::{decimals_read_back, is_digit};
use crate::project::{ProjectionView, RecordView, SnapshotView};
use crate::protocol::ConnectionId;
use crate::server::accounts::subscription_place_in_range;
use crate::server::events::{announcing_only_sends, telling_touches_clients_only, EventView};
use crate::server::membership::{answering_keeps_clients_sound, clients_sound, stopping_ends_everything,
    subscriptions_beside_are_others, subscriptions_off_are_others, taking_waiters_keeps_clients_sound};
use crate::server::model::{active_place, record_with, same_run, subscription_id, subscription_place, subscriptions_beside,
    subscriptions_for, subscriptions_off, texts_except, waiters_beside, waiters_for, waiters_off, RunView, ServerView,
    SubscriptionView, WaitKindView, WaiterView};
use crate::server::registry_watch::{pending_after, pending_without, retried, unwatched, updated_payload};
use crate::server::replacement::{added_ids, broadcasting_only_sends, ending_only_sends, ends, event_enabled, event_path,
    ids_of, moves};
use crate::server::runs::{asking_starts_runs, deferred_runs_start_in_order, due_projects_start_runs, marking_keeps,
    path_changes_keep};
use crate::server::turn::new_server;
use crate::snapshot::FailureView;
use crate::text::decimal_text;
use crate::time::Duration;
use vstd::prelude::*;

verus! {

/// No two subscriptions share an id.
pub open spec fn ids_unique(list: Seq<SubscriptionView>) -> bool {
    forall|i: int, j: int| 0 <= i < j < list.len() ==> (#[trigger] list[i]).id != (#[trigger] list[j]).id
}

/// The subscription's id is one of those that were given out.
pub open spec fn was_given(subscription: SubscriptionView, next: u64) -> bool {
    exists|ordinal: u64| ordinal < next && #[trigger] subscription_id(subscription.connection, ordinal) == subscription.id
}

pub open spec fn all_given(list: Seq<SubscriptionView>, next: u64) -> bool {
    forall|i: int| 0 <= i < list.len() ==> was_given(#[trigger] list[i], next)
}

/// The request is the one that asked for the subscription.
pub open spec fn asks_for(waiter: WaiterView, subscription: SubscriptionView) -> bool {
    &&& waiter.kind == WaitKindView::Subscribe(subscription.id)
    &&& waiter.connection == subscription.connection
    &&& waiter.project_id == subscription.project_id
}

pub open spec fn is_awaited(subscription: SubscriptionView, waiting: Seq<WaiterView>) -> bool {
    exists|i: int| 0 <= i < waiting.len() && asks_for(#[trigger] waiting[i], subscription)
}

/// Every subscription that its client does not know of yet has a request that
/// waits.
pub open spec fn none_forgotten(list: Seq<SubscriptionView>, waiting: Seq<WaiterView>) -> bool {
    forall|i: int| 0 <= i < list.len() && !(#[trigger] list[i]).returned ==> is_awaited(list[i], waiting)
}

pub open spec fn subscriptions_sound(view: ServerView) -> bool {
    &&& ids_unique(view.subscriptions)
    &&& all_given(view.subscriptions, view.next_subscription)
    &&& none_forgotten(view.subscriptions, view.waiters)
}

// ---------------------------------------------------------------------------
// Ids

/// Texts that end in the same way behind the last hyphen.
proof fn behind_the_last_hyphen(a: Seq<char>, x: Seq<char>, b: Seq<char>, y: Seq<char>)
    requires
        a + "-"@ + x == b + "-"@ + y,
        forall|i: int| 0 <= i < x.len() ==> #[trigger] x[i] != '-',
        forall|i: int| 0 <= i < y.len() ==> #[trigger] y[i] != '-',
    ensures
        x == y,
{
    reveal_strlit("-");
    let s = a + "-"@ + x;
    let t = b + "-"@ + y;
    assert(s.len() == a.len() + 1 + x.len());
    assert(t.len() == b.len() + 1 + y.len());
    assert(s[a.len() as int] == '-');
    assert(t[b.len() as int] == '-');
    if a.len() < b.len() {
        assert(s[b.len() as int] == x[b.len() - a.len() - 1]);
    } else if b.len() < a.len() {
        assert(t[a.len() as int] == y[a.len() - b.len() - 1]);
    } else {
        assert forall|i: int| 0 <= i < x.len() implies x[i] == y[i] by {
            assert(s[a.len() + 1 + i] == x[i]);
            assert(t[a.len() + 1 + i] == y[i]);
        }
        assert(x =~= y);
    }
}

/// Subscriptions with different numbers have different ids, whoever they
/// belong to.
pub proof fn subscription_ids_differ(a: ConnectionId, m: u64, b: ConnectionId, n: u64)
    requires
        m != n,
    ensures
        subscription_id(a, m) != subscription_id(b, n),
{
    if subscription_id(a, m) == subscription_id(b, n) {
        let x = decimal_text(m as nat);
        let y = decimal_text(n as nat);
        decimals_read_back(m as nat);
        decimals_read_back(n as nat);
        assert forall|i: int| 0 <= i < x.len() implies #[trigger] x[i] != '-' by {
            assert(is_digit(x[i]));
        }
        assert forall|i: int| 0 <= i < y.len() implies #[trigger] y[i] != '-' by {
            assert(is_digit(y[i]));
        }
        behind_the_last_hyphen("s-"@ + decimal_text(a as nat), x, "s-"@ + decimal_text(b as nat), y);
    }
}

// ---------------------------------------------------------------------------
// Lists

proof fn off_keeps_ids_unique(list: Seq<SubscriptionView>, connection: ConnectionId)
    requires
        ids_unique(list),
    ensures
        ids_unique(subscriptions_off(list, connection)),
    decreases list.len(),
{
    if list.len() > 0 {
        let shorter = list.drop_last();
        assert forall|i: int, j: int| 0 <= i < j < shorter.len() implies (#[trigger] shorter[i]).id != (#[trigger] shorter[j]).id by {
            assert(list[i].id != list[j].id);
        }
        off_keeps_ids_unique(shorter, connection);
        subscriptions_off_are_others(shorter, connection);
        let before = subscriptions_off(shorter, connection);
        let off = subscriptions_off(list, connection);
        assert forall|i: int, j: int| 0 <= i < j < off.len() implies (#[trigger] off[i]).id != (#[trigger] off[j]).id by {
            if j < before.len() {
                assert(before[i].id != before[j].id);
            } else {
                assert(off[i] == before[i]);
                let k = choose|k: int| 0 <= k < shorter.len() && shorter[k] == before[i];
                assert(list[k].id != list[list.len() - 1].id);
            }
        }
    }
}

proof fn beside_keeps_ids_unique(list: Seq<SubscriptionView>, project: Seq<char>)
    requires
        ids_unique(list),
    ensures
        ids_unique(subscriptions_beside(list, project)),
    decreases list.len(),
{
    if list.len() > 0 {
        let shorter = list.drop_last();
        assert forall|i: int, j: int| 0 <= i < j < shorter.len() implies (#[trigger] shorter[i]).id != (#[trigger] shorter[j]).id by {
            assert(list[i].id != list[j].id);
        }
        beside_keeps_ids_unique(shorter, project);
        subscriptions_beside_are_others(shorter, project);
        let before = subscriptions_beside(shorter, project);
        let rest = subscriptions_beside(list, project);
        assert forall|i: int, j: int| 0 <= i < j < rest.len() implies (#[trigger] rest[i]).id != (#[trigger] rest[j]).id by {
            if j < before.len() {
                assert(before[i].id != before[j].id);
            } else {
                assert(rest[i] == before[i]);
                let k = choose|k: int| 0 <= k < shorter.len() && shorter[k] == before[i];
                assert(list[k].id != list[list.len() - 1].id);
            }
        }
    }
}

proof fn others_wait_on(list: Seq<WaiterView>, connection: ConnectionId, i: int)
    requires
        0 <= i < list.len(),
        list[i].connection != connection,
    ensures
        waiters_off(list, connection).contains(list[i]),
    decreases list.len(),
{
    let off = waiters_off(list, connection);
    if i == list.len() - 1 {
        assert(off[off.len() - 1] == list[i]);
    } else {
        others_wait_on(list.drop_last(), connection, i);
        let before = waiters_off(list.drop_last(), connection);
        let k = choose|k: int| 0 <= k < before.len() && before[k] == list[i];
        assert(off[k] == list[i]);
    }
}

proof fn every_waiter_is_on_one_side(list: Seq<WaiterView>, project: Seq<char>, i: int)
    requires
        0 <= i < list.len(),
    ensures
        list[i].project_id == project ==> waiters_for(list, project).contains(list[i]),
        list[i].project_id != project ==> waiters_beside(list, project).contains(list[i]),
    decreases list.len(),
{
    let own = waiters_for(list, project);
    let rest = waiters_beside(list, project);
    if i == list.len() - 1 {
        if list[i].project_id == project {
            assert(own[own.len() - 1] == list[i]);
        } else {
            assert(rest[rest.len() - 1] == list[i]);
        }
    } else {
        let shorter = list.drop_last();
        every_waiter_is_on_one_side(shorter, project, i);
        if list[i].project_id == project {
            let before = waiters_for(shorter, project);
            let k = choose|k: int| 0 <= k < before.len() && before[k] == shorter[i];
            assert(own[k] == list[i]);
        } else {
            let before = waiters_beside(shorter, project);
            let k = choose|k: int| 0 <= k < before.len() && before[k] == shorter[i];
            assert(rest[k] == list[i]);
        }
    }
}

// ---------------------------------------------------------------------------
// Steps

/// `b` has some of the subscriptions of `a`, and knows no other numbers.
spec fn some_of(a: ServerView, b: ServerView) -> bool {
    &&& b.next_subscription == a.next_subscription
    &&& forall|i: int| 0 <= i < b.subscriptions.len() ==> a.subscriptions.contains(#[trigger] b.subscriptions[i])
}

proof fn some_are_given(a: ServerView, b: ServerView)
    requires
        all_given(a.subscriptions, a.next_subscription),
        some_of(a, b),
    ensures
        all_given(b.subscriptions, b.next_subscription),
{
    assert forall|i: int| 0 <= i < b.subscriptions.len() implies was_given(#[trigger] b.subscriptions[i], b.next_subscription) by {
        let k = choose|k: int| 0 <= k < a.subscriptions.len() && a.subscriptions[k] == b.subscriptions[i];
        assert(was_given(a.subscriptions[k], a.next_subscription));
    }
}

/// A connection that goes takes its subscriptions and its requests along;
/// `elsewhere` are requests that have been taken out.
proof fn closing_forgets_nobody(view: ServerView, connection: ConnectionId, elsewhere: Seq<WaiterView>)
    requires
        ids_unique(view.subscriptions),
        all_given(view.subscriptions, view.next_subscription),
        none_forgotten(view.subscriptions, view.waiters + elsewhere),
    ensures
        ({
            let closed = view.closed(connection);
            let dropped = view.dropped(connection);
            &&& ids_unique(closed.subscriptions) && ids_unique(dropped.subscriptions)
            &&& all_given(closed.subscriptions, closed.next_subscription) && all_given(dropped.subscriptions, dropped.next_subscription)
            &&& none_forgotten(closed.subscriptions, closed.waiters + elsewhere)
            &&& none_forgotten(dropped.subscriptions, dropped.waiters + elsewhere)
        }),
{
    if view.connected(connection) {
        let closed = view.closed(connection);
        off_keeps_ids_unique(view.subscriptions, connection);
        subscriptions_off_are_others(view.subscriptions, connection);
        some_are_given(view, closed);
        some_are_given(view, view.dropped(connection));
        let left = closed.subscriptions;
        let all = view.waiters + elsewhere;
        let waiting = closed.waiters + elsewhere;
        assert forall|i: int| 0 <= i < left.len() && !(#[trigger] left[i]).returned implies is_awaited(left[i], waiting) by {
            let k = choose|k: int| 0 <= k < view.subscriptions.len() && view.subscriptions[k] == left[i];
            assert(is_awaited(view.subscriptions[k], all));
            let w = choose|w: int| 0 <= w < all.len() && asks_for(#[trigger] all[w], left[i]);
            if w < view.waiters.len() {
                others_wait_on(view.waiters, connection, w);
                let m = choose|m: int| 0 <= m < closed.waiters.len() && closed.waiters[m] == all[w];
                assert(waiting[m] == all[w]);
            } else {
                assert(waiting[closed.waiters.len() + (w - view.waiters.len())] == all[w]);
            }
        }
    }
}

proof fn unsubscribing_forgets_nobody(view: ServerView, id: Seq<char>, waiting: Seq<WaiterView>)
    requires
        ids_unique(view.subscriptions),
        all_given(view.subscriptions, view.next_subscription),
        none_forgotten(view.subscriptions, waiting),
    ensures
        ({
            let gone = view.without_subscription(id);
            let known = view.subscription_returned(id);
            &&& ids_unique(gone.subscriptions) && ids_unique(known.subscriptions)
            &&& all_given(gone.subscriptions, gone.next_subscription) && all_given(known.subscriptions, known.next_subscription)
            &&& none_forgotten(gone.subscriptions, waiting)
            &&& none_forgotten(known.subscriptions, waiting)
            &&& forall|i: int| 0 <= i < gone.subscriptions.len() ==> (#[trigger] gone.subscriptions[i]).id != id
            &&& forall|i: int|
                0 <= i < known.subscriptions.len() && (#[trigger] known.subscriptions[i]).id == id ==> known.subscriptions[i].returned
        }),
{
    let list = view.subscriptions;
    let at = subscription_place(list, id);
    subscription_place_is_the_only(list, id);
    if at >= 0 {
        let gone = list.remove(at);
        let known = view.subscription_returned(id).subscriptions;
        assert forall|i: int| 0 <= i < gone.len() implies (#[trigger] gone[i]) == list[if i < at { i } else { i + 1 }] by {}
        assert forall|i: int, j: int| 0 <= i < j < gone.len() implies (#[trigger] gone[i]).id != (#[trigger] gone[j]).id by {
            assert(list[if i < at { i } else { i + 1 }].id != list[if j < at { j } else { j + 1 }].id);
        }
        assert forall|i: int| 0 <= i < gone.len() implies (#[trigger] gone[i]).id != id by {
            let k = if i < at { i } else { i + 1 };
            assert(gone[i] == list[k]);
        }
        assert forall|i: int| 0 <= i < gone.len() implies was_given(#[trigger] gone[i], view.next_subscription) by {
            assert(was_given(list[if i < at { i } else { i + 1 }], view.next_subscription));
        }
        assert forall|i: int| 0 <= i < gone.len() && !(#[trigger] gone[i]).returned implies is_awaited(gone[i], waiting) by {
            assert(is_awaited(list[if i < at { i } else { i + 1 }], waiting));
        }
        assert forall|i: int| 0 <= i < known.len() implies (#[trigger] known[i]).id == list[i].id && known[i].connection == list[i].connection by {}
        assert forall|i: int, j: int| 0 <= i < j < known.len() implies (#[trigger] known[i]).id != (#[trigger] known[j]).id by {
            assert(list[i].id != list[j].id);
        }
        assert forall|i: int| 0 <= i < known.len() implies was_given(#[trigger] known[i], view.next_subscription) by {
            assert(was_given(list[i], view.next_subscription));
            let n = choose|n: u64| n < view.next_subscription && #[trigger] subscription_id(list[i].connection, n) == list[i].id;
            assert(subscription_id(known[i].connection, n) == known[i].id);
        }
        assert forall|i: int| 0 <= i < known.len() && !(#[trigger] known[i]).returned implies is_awaited(known[i], waiting) by {
            assert(known[i] == list[i]);
        }
    }
}

/// The place of an id is the only one where it stands.
proof fn subscription_place_is_the_only(list: Seq<SubscriptionView>, id: Seq<char>)
    requires
        ids_unique(list),
    ensures
        forall|i: int| 0 <= i < list.len() ==> ((#[trigger] list[i]).id == id <==> i == subscription_place(list, id)),
        -1 <= subscription_place(list, id) < list.len(),
    decreases list.len(),
{
    subscription_place_in_range(list, id);
    if list.len() > 0 {
        let shorter = list.drop_last();
        assert forall|i: int, j: int| 0 <= i < j < shorter.len() implies (#[trigger] shorter[i]).id != (#[trigger] shorter[j]).id by {
            assert(list[i].id != list[j].id);
        }
        subscription_place_is_the_only(shorter, id);
        assert forall|i: int| 0 <= i < list.len() implies ((#[trigger] list[i]).id == id <==> i == subscription_place(list, id)) by {
            if i < shorter.len() {
                assert(shorter[i] == list[i]);
                assert(list[i].id != list[list.len() - 1].id);
            }
        }
    }
}

/// A request that nothing waits for any more can go.
proof fn one_answer_is_enough(list: Seq<SubscriptionView>, waiting: Seq<WaiterView>, waiter: WaiterView, left: Seq<WaiterView>)
    requires
        none_forgotten(list, waiting + (seq![waiter] + left)),
        forall|i: int| 0 <= i < list.len() && !(#[trigger] list[i]).returned ==> !asks_for(waiter, list[i]),
    ensures
        none_forgotten(list, waiting + left),
{
    let all = waiting + (seq![waiter] + left);
    let fewer = waiting + left;
    assert forall|i: int| 0 <= i < list.len() && !(#[trigger] list[i]).returned implies is_awaited(list[i], fewer) by {
        assert(is_awaited(list[i], all));
        let w = choose|w: int| 0 <= w < all.len() && asks_for(#[trigger] all[w], list[i]);
        if w < waiting.len() {
            assert(fewer[w] == all[w]);
        } else {
            assert(all[waiting.len() as int] == waiter);
            assert(fewer[w - 1] == all[w]);
        }
    }
}

proof fn answering_forgets_nobody(view: ServerView, list: Seq<WaiterView>, left: Seq<WaiterView>, projection: Option<ProjectionView>, message: Seq<char>, too_large: bool)
    requires
        clients_sound(view),
        ids_unique(view.subscriptions),
        all_given(view.subscriptions, view.next_subscription),
        none_forgotten(view.subscriptions, view.waiters + (list + left)),
    ensures
        ({
            let after = view.waiters_answered_from(list, projection, message, too_large);
            &&& ids_unique(after.subscriptions)
            &&& all_given(after.subscriptions, after.next_subscription)
            &&& none_forgotten(after.subscriptions, after.waiters + left)
        }),
    decreases list.len(),
{
    if list.len() == 0 {
        assert(list + left =~= left);
    } else {
        let waiter = list.last();
        let shorter = list.drop_last();
        let behind = seq![waiter] + left;
        assert(shorter + behind =~= list + left);
        answering_forgets_nobody(view, shorter, behind, projection, message, too_large);
        answering_keeps_clients_sound(view, shorter, projection, message, too_large);
        let before = view.waiters_answered_from(shorter, projection, message, too_large);
        let c = waiter.connection;
        match waiter.kind {
            WaitKindView::Subscribe(subscription) => {
                if !before.connected(c) {
                    assert forall|i: int| 0 <= i < before.subscriptions.len() implies !asks_for(waiter, #[trigger] before.subscriptions[i]) by {
                        assert(before.connected(before.subscriptions[i].connection));
                    }
                    one_answer_is_enough(before.subscriptions, before.waiters, waiter, left);
                } else {
                    unsubscribing_forgets_nobody(before, subscription, before.waiters + behind);
                    let gone = before.without_subscription(subscription);
                    let known = before.subscription_returned(subscription);
                    one_answer_is_enough(gone.subscriptions, before.waiters, waiter, left);
                    one_answer_is_enough(known.subscriptions, before.waiters, waiter, left);
                    if projection is None && too_large {
                        closing_forgets_nobody(gone, c, left);
                    }
                }
            },
            WaitKindView::Get => {
                one_answer_is_enough(before.subscriptions, before.waiters, waiter, left);
                if before.connected(c) && projection is None && too_large {
                    closing_forgets_nobody(before, c, left);
                }
            },
        }
    }
}

/// Those who waited for a project are answered, and no subscription is
/// forgotten.
proof fn answers_forget_nobody(view: ServerView, id: Seq<char>, too_large: bool)
    requires
        clients_sound(view),
        subscriptions_sound(view),
    ensures
        subscriptions_sound(view.waiters_answered(id, too_large)),
{
    let taken = view.waiters_taken(id);
    let own = waiters_for(view.waiters, id);
    let none = Seq::<WaiterView>::empty();
    let all = taken.waiters + (own + none);
    taking_waiters_keeps_clients_sound(view, id);
    assert forall|i: int| 0 <= i < view.subscriptions.len() && !(#[trigger] view.subscriptions[i]).returned implies is_awaited(
        view.subscriptions[i],
        all,
    ) by {
        let s = view.subscriptions[i];
        assert(is_awaited(s, view.waiters));
        let w = choose|w: int| 0 <= w < view.waiters.len() && asks_for(#[trigger] view.waiters[w], s);
        every_waiter_is_on_one_side(view.waiters, id, w);
        if view.waiters[w].project_id == id {
            let k = choose|k: int| 0 <= k < own.len() && own[k] == view.waiters[w];
            assert(all[taken.waiters.len() + k] == view.waiters[w]);
        } else {
            let k = choose|k: int| 0 <= k < taken.waiters.len() && taken.waiters[k] == view.waiters[w];
            assert(all[k] == view.waiters[w]);
        }
    }
    answering_forgets_nobody(taken, own, none, view.cached_projection(id), view.failure_message(id), too_large);
    let after = view.waiters_answered(id, too_large);
    assert(after.waiters + none =~= after.waiters);
}

/// The two agree on subscriptions, waiting requests and numbers.
spec fn same_following(a: ServerView, b: ServerView) -> bool {
    a.subscriptions == b.subscriptions && a.waiters == b.waiters && a.next_subscription == b.next_subscription
}

proof fn ends_of_runs_forget_nobody(view: ServerView, run: RunView, result: Result<SnapshotView, FailureView>, now: Duration)
    requires
        clients_sound(view),
        subscriptions_sound(view),
    ensures
        subscriptions_sound(view.finished(run, result, now)),
{
    let id = run.record.id;
    let at = active_place(view.active, id);
    if at < 0 || !same_run(view.active[at], run) {
    } else {
        let idle = ServerView { active: view.active.remove(at), ..view };
        if !idle.is_current(run) {
            let rested = idle.with_dirty(idle.dirty.ended(id, now));
            assert(same_following(rested, view) && clients_sound(rested));
            asking_starts_runs(rested, id, now);
            assert(same_following(rested.started(id, now), view));
            answers_forget_nobody(rested, id, false);
        } else {
            let outcome = idle.judged(run, result);
            let had_good = idle.cached_projection(id) is Some;
            let too_large = outcome matches Err(FailureView::OutputTooLarge(_));
            let cached = idle.cached(id, outcome);
            assert(same_following(cached, view) && clients_sound(cached));
            answers_forget_nobody(cached, id, too_large);
            let answered = cached.waiters_answered(id, too_large);
            telling_touches_clients_only(answered, id, outcome, had_good);
            assert(same_following(view.finished(run, result, now), answered));
        }
    }
}

proof fn closing_keeps_subscriptions_sound(view: ServerView, connection: ConnectionId)
    requires
        subscriptions_sound(view),
    ensures
        subscriptions_sound(view.closed(connection)),
        subscriptions_sound(view.dropped(connection)),
{
    let none = Seq::<WaiterView>::empty();
    assert(view.waiters + none =~= view.waiters);
    closing_forgets_nobody(view, connection, none);
    assert(view.closed(connection).waiters + none =~= view.closed(connection).waiters);
    assert(view.dropped(connection).waiters + none =~= view.dropped(connection).waiters);
}

// ---------------------------------------------------------------------------
// Requests

proof fn subscribing_forgets_nobody(view: ServerView, connection: ConnectionId, id: Seq<char>, params: JsonView, now: Duration)
    requires
        subscriptions_sound(view),
        view.has_ids(),
    ensures
        subscriptions_sound(view.subscribed(connection, id, params, now)),
{
    match view.selected(params) {
        Err(_) => {},
        Ok(project) => {
            let subscription = subscription_id(connection, view.next_subscription);
            let numbered = ServerView { next_subscription: (view.next_subscription + 1) as u64, ..view };
            assert(all_given(numbered.subscriptions, numbered.next_subscription)) by {
                assert forall|i: int| 0 <= i < view.subscriptions.len() implies was_given(
                    #[trigger] view.subscriptions[i],
                    numbered.next_subscription,
                ) by {
                    let s = view.subscriptions[i];
                    assert(was_given(s, view.next_subscription));
                    let n = choose|n: u64| n < view.next_subscription && #[trigger] subscription_id(s.connection, n) == s.id;
                    assert(subscription_id(s.connection, n) == s.id);
                }
            }
            if !numbered.can_subscribe(connection) {
                closing_keeps_subscriptions_sound(numbered, connection);
            } else {
                let entry = SubscriptionView { id: subscription, connection, project_id: project, returned: false };
                let registered = numbered.with_subscription(entry);
                let list = registered.subscriptions;
                let waiter = WaiterView {
                    project_id: project,
                    connection,
                    request_id: id,
                    kind: WaitKindView::Subscribe(subscription),
                };
                let waiting = view.waiters.push(waiter);
                assert forall|i: int, j: int| 0 <= i < j < list.len() implies (#[trigger] list[i]).id != (#[trigger] list[j]).id by {
                    if j == view.subscriptions.len() {
                        let s = view.subscriptions[i];
                        assert(was_given(s, view.next_subscription));
                        let n = choose|n: u64| n < view.next_subscription && #[trigger] subscription_id(s.connection, n) == s.id;
                        subscription_ids_differ(s.connection, n, connection, view.next_subscription);
                    } else {
                        assert(view.subscriptions[i].id != view.subscriptions[j].id);
                    }
                }
                assert forall|i: int| 0 <= i < list.len() implies was_given(#[trigger] list[i], registered.next_subscription) by {
                    if i < view.subscriptions.len() {
                        assert(was_given(numbered.subscriptions[i], numbered.next_subscription));
                    } else {
                        assert(subscription_id(entry.connection, view.next_subscription) == entry.id);
                    }
                }
                assert forall|i: int| 0 <= i < list.len() && !(#[trigger] list[i]).returned implies is_awaited(list[i], waiting) by {
                    if i < view.subscriptions.len() {
                        assert(is_awaited(view.subscriptions[i], view.waiters));
                        let w = choose|w: int| 0 <= w < view.waiters.len() && asks_for(#[trigger] view.waiters[w], list[i]);
                        assert(waiting[w] == view.waiters[w]);
                    } else {
                        assert(asks_for(waiting[view.waiters.len() as int], list[i]));
                    }
                }
                match registered.cached_projection(project) {
                    Some(_) => {
                        unsubscribing_forgets_nobody(registered, subscription, waiting);
                        let none = Seq::<WaiterView>::empty();
                        assert(waiting =~= view.waiters + (seq![waiter] + none));
                        assert(view.waiters + none =~= view.waiters);
                        one_answer_is_enough(registered.without_subscription(subscription).subscriptions, view.waiters, waiter, none);
                        one_answer_is_enough(registered.subscription_returned(subscription).subscriptions, view.waiters, waiter, none);
                    },
                    None => {
                        if registered.can_wait(project) {
                            asking_starts_runs(registered.with_waiter(waiter), project, now);
                        } else {
                            // The request is not let in; the connection goes, and the subscription with it.
                            let none = Seq::<WaiterView>::empty();
                            assert(registered.waiters + seq![waiter] =~= waiting);
                            closing_forgets_nobody(registered, connection, seq![waiter]);
                            let closed = registered.closed(connection);
                            subscriptions_off_are_others(list, connection);
                            assert(closed.waiters + seq![waiter] =~= closed.waiters + (seq![waiter] + none));
                            one_answer_is_enough(closed.subscriptions, closed.waiters, waiter, none);
                            assert(closed.waiters + none =~= closed.waiters);
                        }
                    },
                }
            }
        },
    }
}

proof fn requests_forget_nobody(view: ServerView, connection: ConnectionId, parsed: Result<JsonView, Seq<char>>, now: Duration)
    requires
        subscriptions_sound(view),
        view.has_ids(),
    ensures
        subscriptions_sound(view.frame_handled(connection, parsed, now)),
{
    let request = match parsed {
        Ok(json) => read_envelope(json),
        Err(_) => None,
    };
    match request {
        Some(EnvelopeView::Request { version, id, method, params }) => {
            if version != crate::envelope::PROTOCOL_VERSION {
                let sent = view.error_sent(
                    connection,
                    id,
                    "unsupported_version"@,
                    "unsupported protocol major version"@,
                );
                assert(same_following(sent, view));
                closing_keeps_subscriptions_sound(sent, connection);
            } else {
                match method {
                    MethodView::SnapshotGet => match view.selected(params) {
                        Err(_) => {},
                        Ok(project) => {
                            let waiter = WaiterView { project_id: project, connection, request_id: id, kind: WaitKindView::Get };
                            more_waiters_forget_nobody(view, waiter);
                            asking_starts_runs(view.with_waiter(waiter), project, now);
                            closing_keeps_subscriptions_sound(view, connection);
                        },
                    },
                    MethodView::SnapshotSubscribe => {
                        subscribing_forgets_nobody(view, connection, id, params, now);
                    },
                    MethodView::SnapshotUnsubscribe => match json_field(params, "subscriptionId"@) {
                        Some(JsonView::Text(subscription)) => {
                            unsubscribing_forgets_nobody(view, subscription, view.waiters);
                        },
                        _ => {},
                    },
                    _ => {},
                }
            }
        },
        _ => {},
    }
}

proof fn more_waiters_forget_nobody(view: ServerView, waiter: WaiterView)
    requires
        subscriptions_sound(view),
    ensures
        subscriptions_sound(view.with_waiter(waiter)),
{
    let waiting = view.waiters.push(waiter);
    assert forall|i: int| 0 <= i < view.subscriptions.len() && !(#[trigger] view.subscriptions[i]).returned implies is_awaited(
        view.subscriptions[i],
        waiting,
    ) by {
        assert(is_awaited(view.subscriptions[i], view.waiters));
        let w = choose|w: int| 0 <= w < view.waiters.len() && asks_for(#[trigger] view.waiters[w], view.subscriptions[i]);
        assert(waiting[w] == view.waiters[w]);
    }
}

// ---------------------------------------------------------------------------
// A new registry

proof fn displacing_keeps_the_others(view: ServerView, list: Seq<WaiterView>, restart_gets: bool)
    ensures
        ({
            let after = view.waiters_displaced(list, restart_gets);
            &&& after.subscriptions == view.subscriptions
            &&& after.next_subscription == view.next_subscription
            &&& after.waiters.len() >= view.waiters.len()
            &&& after.waiters.take(view.waiters.len() as int) == view.waiters
        }),
    decreases list.len(),
{
    if list.len() == 0 {
        assert(view.waiters.take(view.waiters.len() as int) =~= view.waiters);
    } else {
        displacing_keeps_the_others(view, list.drop_last(), restart_gets);
        let before = view.waiters_displaced(list.drop_last(), restart_gets);
        let after = view.waiters_displaced(list, restart_gets);
        assert(after.waiters.take(view.waiters.len() as int) =~= before.waiters.take(view.waiters.len() as int));
    }
}

proof fn ended_projects_forget_nobody(view: ServerView, project: Seq<char>, reason: Seq<char>, restart_gets: bool)
    requires
        subscriptions_sound(view),
    ensures
        subscriptions_sound(view.project_ended(project, reason, restart_gets)),
{
    let taken = ServerView { subscriptions: subscriptions_beside(view.subscriptions, project), ..view };
    let list = subscriptions_for(view.subscriptions, project);
    ending_only_sends(taken, list, reason);
    let told = taken.subscriptions_ended(list, reason);
    let left = told.waiters_taken(project);
    displacing_keeps_the_others(left, waiters_for(told.waiters, project), restart_gets);
    let after = view.project_ended(project, reason, restart_gets);
    beside_keeps_ids_unique(view.subscriptions, project);
    subscriptions_beside_are_others(view.subscriptions, project);
    some_are_given(view, after);
    assert forall|i: int| 0 <= i < after.subscriptions.len() && !(#[trigger] after.subscriptions[i]).returned implies is_awaited(
        after.subscriptions[i],
        after.waiters,
    ) by {
        let s = after.subscriptions[i];
        let k = choose|k: int| 0 <= k < view.subscriptions.len() && view.subscriptions[k] == s;
        assert(is_awaited(view.subscriptions[k], view.waiters));
        let w = choose|w: int| 0 <= w < view.waiters.len() && asks_for(#[trigger] view.waiters[w], s);
        every_waiter_is_on_one_side(view.waiters, project, w);
        let m = choose|m: int| 0 <= m < left.waiters.len() && left.waiters[m] == view.waiters[w];
        assert(after.waiters.take(left.waiters.len() as int)[m] == after.waiters[m]);
        assert(asks_for(after.waiters[m], s));
    }
}

proof fn registration_forgets_nobody(view: ServerView, id: Seq<char>, previous: Option<RecordView>, next: Option<RecordView>, watch_retried: bool)
    requires
        subscriptions_sound(view),
    ensures
        subscriptions_sound(view.registration_changed(id, previous, next, watch_retried).0),
{
    let moved = view.renumbered(id, previous, next).cache_moved(id, previous, next);
    let emptied = ServerView { deferred: texts_except(moved.deferred, id), ..moved };
    assert(same_following(emptied, view));
    ended_projects_forget_nobody(emptied, id, "project_removed"@, moves(previous, next));
    let closed = if ends(previous, next) {
        moved.project_closed(id, moves(previous, next))
    } else {
        moved
    };
    let ended = emptied.project_ended(id, "project_removed"@, moves(previous, next));
    assert(ends(previous, next) ==> same_following(closed, ended));
    assert(subscriptions_sound(closed));
    let payload = updated_payload(id, event_path(previous, next), event_enabled(next));
    broadcasting_only_sends(closed, closed.connections, "project.updated"@, payload);
    assert(same_following(closed.broadcast("project.updated"@, payload), closed));
}

proof fn registrations_forget_nobody(view: ServerView, ids: Seq<Seq<char>>, old: Seq<RecordView>, new: Seq<RecordView>, watch_retried: Seq<Seq<char>>)
    requires
        subscriptions_sound(view),
    ensures
        subscriptions_sound(view.registrations_changed(ids, old, new, watch_retried).0),
    decreases ids.len(),
{
    if ids.len() > 0 {
        registrations_forget_nobody(view, ids.drop_last(), old, new, watch_retried);
        let before = view.registrations_changed(ids.drop_last(), old, new, watch_retried).0;
        let id = ids.last();
        registration_forgets_nobody(before, id, record_with(old, id), record_with(new, id), watch_retried.contains(id));
    }
}

proof fn restarts_keep_following(view: ServerView, ids: Seq<Seq<char>>, now: Duration)
    ensures
        same_following(view.all_started(ids, now), view),
    decreases ids.len(),
{
    if ids.len() > 0 {
        restarts_keep_following(view, ids.drop_last(), now);
        asking_starts_runs(view.all_started(ids.drop_last(), now), ids.last(), now);
    }
}

// ---------------------------------------------------------------------------
// The laws

proof fn drops_forget_nobody(view: ServerView, connections: Seq<ConnectionId>)
    requires
        subscriptions_sound(view),
    ensures
        subscriptions_sound(view.all_dropped(connections)),
    decreases connections.len(),
{
    if connections.len() > 0 {
        drops_forget_nobody(view, connections.drop_last());
        closing_keeps_subscriptions_sound(view.all_dropped(connections.drop_last()), connections.last());
    }
}

proof fn closing_all_forgets_nobody(view: ServerView)
    requires
        subscriptions_sound(view),
    ensures
        subscriptions_sound(view.all_closed()),
    decreases view.connections.len(),
{
    if view.connections.len() > 0 {
        closing_keeps_subscriptions_sound(view, view.connections.last().id);
        closing_all_forgets_nobody(view.closed(view.connections.last().id));
    }
}

/// A daemon begins without subscriptions.
pub proof fn a_new_daemon_follows_nothing(limits: Limits, version: Seq<char>, registry: Seq<char>, projects: Seq<RecordView>, window: Duration)
    ensures
        subscriptions_sound(new_server(limits, version, registry, projects, window)),
{
}

/// Whatever happens, no two subscriptions share an id, and none is forgotten:
/// one that its client does not know of has a request that still waits, whose
/// answer will name the subscription or end it.
pub proof fn no_subscription_is_forgotten(view: ServerView, event: EventView, now: Duration)
    requires
        clients_sound(view),
        subscriptions_sound(view),
        view.allows(event),
    ensures
        subscriptions_sound(view.after(event, now)),
{
    match event {
        EventView::Admitted => {},
        EventView::WriterGone(_) => {},
        EventView::Frame(connection, parsed) => {
            requests_forget_nobody(view, connection, parsed, now);
        },
        EventView::Oversized(connection, request) => {
            let answered = match request {
                Some(id) => view.error_sent(connection, id, "frame_too_large"@, "frame exceeds maximum size"@),
                None => view,
            };
            assert(same_following(answered, view));
            closing_keeps_subscriptions_sound(answered, connection);
        },
        EventView::SnapshotDone(run, result) => {
            ends_of_runs_forget_nobody(view, run, result, now);
            let idle = view.finished(run, result, now);
            deferred_runs_start_in_order(idle, now);
            assert(same_following(idle.deferred_launched(now), idle));
        },
        EventView::Due => {
            due_projects_start_runs(view, now);
            assert(same_following(view.due_started(now), view));
        },
        EventView::Changed(paths) => {
            path_changes_keep(view, paths, now);
            assert(same_following(view.paths_changed(paths, now), view));
        },
        EventView::Missed => {
            marking_keeps(view, view.projects, now);
        },
        EventView::Registry(new, failed) => {
            let old = view.projects;
            let pending = pending_without(view.pending_watches, unwatched(old, new));
            let rewatched = ServerView { pending_watches: pending_after(new, old, pending, failed), ..view };
            let ids = ids_of(old) + added_ids(new, old);
            let again = retried(new, old, pending, failed);
            assert(same_following(rewatched, view));
            registrations_forget_nobody(rewatched, ids, old, new, again);
            let (changed, restart) = rewatched.registrations_changed(ids, old, new, again);
            let placed = ServerView { projects: new, ..changed };
            restarts_keep_following(placed, restart, now);
            assert(same_following(view.after(event, now), changed));
        },
        EventView::Watched(installed) => {
            let settled = ServerView {
                pending_watches: pending_without(view.pending_watches, installed),
                ..view
            }.retry_scheduled(now);
            announcing_only_sends(settled, installed);
            assert(same_following(view.after(event, now), view));
        },
        EventView::Gone(connections) => {
            drops_forget_nobody(view, connections);
        },
        EventView::Stopping => {
            stopping_ends_everything(view);
        },
        EventView::Drained(_) => {},
        EventView::Closing => {
            closing_all_forgets_nobody(view);
        },
    }
}

} // verus!
