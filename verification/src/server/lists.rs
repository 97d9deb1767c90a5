//! What the lists of the daemon hold, in terms of what was put into them.

use crate::project::RecordView;
use crate::protocol::ConnectionId;
use crate::server::model::{active_place, subscribers, subscription_place, subscriptions_beside, subscriptions_for, subscriptions_off,
    subscriptions_on, texts_except, texts_with, waiters_beside, waiters_for, waiters_off, waiters_on, RunView,
    SubscriptionView, WaiterView};
use crate::server::registry_watch::{enabled_of, still_pending};
use vstd::prelude::*;

verus! {

/// The requests that wait for a project are those that name it, in order.
pub proof fn waiters_for_is_a_part(list: Seq<WaiterView>, project: Seq<char>)
    ensures
        waiters_for(list, project) == list.filter(|w: WaiterView| w.project_id == project),
    decreases list.len(),
{
    reveal(Seq::filter);
    if list.len() > 0 {
        waiters_for_is_a_part(list.drop_last(), project);
    } else {
        assert(waiters_for(list, project) =~= list.filter(|w: WaiterView| w.project_id == project));
    }
}

/// The requests that wait for other projects are all the others, in order.
pub proof fn waiters_beside_is_a_part(list: Seq<WaiterView>, project: Seq<char>)
    ensures
        waiters_beside(list, project) == list.filter(|w: WaiterView| w.project_id != project),
    decreases list.len(),
{
    reveal(Seq::filter);
    if list.len() > 0 {
        waiters_beside_is_a_part(list.drop_last(), project);
    } else {
        assert(waiters_beside(list, project) =~= list.filter(|w: WaiterView| w.project_id != project));
    }
}

/// The waiting requests of a connection are those that it sent, in order.
pub proof fn waiters_on_is_a_part(list: Seq<WaiterView>, connection: ConnectionId)
    ensures
        waiters_on(list, connection) == list.filter(|w: WaiterView| w.connection == connection),
    decreases list.len(),
{
    reveal(Seq::filter);
    if list.len() > 0 {
        waiters_on_is_a_part(list.drop_last(), connection);
    } else {
        assert(waiters_on(list, connection) =~= list.filter(|w: WaiterView| w.connection == connection));
    }
}

/// The waiting requests of other connections are all the others, in order.
pub proof fn waiters_off_is_a_part(list: Seq<WaiterView>, connection: ConnectionId)
    ensures
        waiters_off(list, connection) == list.filter(|w: WaiterView| w.connection != connection),
    decreases list.len(),
{
    reveal(Seq::filter);
    if list.len() > 0 {
        waiters_off_is_a_part(list.drop_last(), connection);
    } else {
        assert(waiters_off(list, connection) =~= list.filter(|w: WaiterView| w.connection != connection));
    }
}

/// The subscriptions to a project are those that name it, in order.
pub proof fn subscriptions_for_is_a_part(list: Seq<SubscriptionView>, project: Seq<char>)
    ensures
        subscriptions_for(list, project) == list.filter(|s: SubscriptionView| s.project_id == project),
    decreases list.len(),
{
    reveal(Seq::filter);
    if list.len() > 0 {
        subscriptions_for_is_a_part(list.drop_last(), project);
    } else {
        assert(subscriptions_for(list, project) =~= list.filter(|s: SubscriptionView| s.project_id == project));
    }
}

/// The subscriptions to other projects are all the others, in order.
pub proof fn subscriptions_beside_is_a_part(list: Seq<SubscriptionView>, project: Seq<char>)
    ensures
        subscriptions_beside(list, project) == list.filter(|s: SubscriptionView| s.project_id != project),
    decreases list.len(),
{
    reveal(Seq::filter);
    if list.len() > 0 {
        subscriptions_beside_is_a_part(list.drop_last(), project);
    } else {
        assert(subscriptions_beside(list, project) =~= list.filter(|s: SubscriptionView| s.project_id != project));
    }
}

/// The subscriptions of a connection are those that it made, in order.
pub proof fn subscriptions_on_is_a_part(list: Seq<SubscriptionView>, connection: ConnectionId)
    ensures
        subscriptions_on(list, connection) == list.filter(|s: SubscriptionView| s.connection == connection),
    decreases list.len(),
{
    reveal(Seq::filter);
    if list.len() > 0 {
        subscriptions_on_is_a_part(list.drop_last(), connection);
    } else {
        assert(subscriptions_on(list, connection) =~= list.filter(|s: SubscriptionView| s.connection == connection));
    }
}

/// The subscriptions of other connections are all the others, in order.
pub proof fn subscriptions_off_is_a_part(list: Seq<SubscriptionView>, connection: ConnectionId)
    ensures
        subscriptions_off(list, connection) == list.filter(|s: SubscriptionView| s.connection != connection),
    decreases list.len(),
{
    reveal(Seq::filter);
    if list.len() > 0 {
        subscriptions_off_is_a_part(list.drop_last(), connection);
    } else {
        assert(subscriptions_off(list, connection) =~= list.filter(|s: SubscriptionView| s.connection != connection));
    }
}

/// A list of texts without one text is all the others, in order.
pub proof fn texts_except_is_a_part(list: Seq<Seq<char>>, text: Seq<char>)
    ensures
        texts_except(list, text) == list.filter(|t: Seq<char>| t != text),
    decreases list.len(),
{
    reveal(Seq::filter);
    if list.len() > 0 {
        texts_except_is_a_part(list.drop_last(), text);
    } else {
        assert(texts_except(list, text) =~= list.filter(|t: Seq<char>| t != text));
    }
}

/// A text is put into a list once: behind the others, unless it is there.
pub proof fn texts_are_put_in_once(list: Seq<Seq<char>>, text: Seq<char>)
    ensures
        texts_with(list, text).contains(text),
        list.contains(text) ==> texts_with(list, text) == list,
        !list.contains(text) ==> texts_with(list, text) == list + seq![text],
{
    if !list.contains(text) {
        assert(list.push(text)[list.len() as int] == text);
        assert(list.push(text) =~= list + seq![text]);
    }
}

/// The enabled projects are those that are enabled, in order.
pub proof fn enabled_of_is_a_part(list: Seq<RecordView>)
    ensures
        enabled_of(list) == list.filter(|r: RecordView| r.enabled),
    decreases list.len(),
{
    reveal(Seq::filter);
    if list.len() > 0 {
        enabled_of_is_a_part(list.drop_last());
    } else {
        assert(enabled_of(list) =~= list.filter(|r: RecordView| r.enabled));
    }
}

/// The projects that are still to be watched are the enabled ones whose ids are
/// pending, in order.
pub proof fn still_pending_is_a_part(list: Seq<RecordView>, pending: Seq<Seq<char>>)
    ensures
        still_pending(list, pending) == list.filter(|r: RecordView| r.enabled && pending.contains(r.id)),
    decreases list.len(),
{
    reveal(Seq::filter);
    if list.len() > 0 {
        still_pending_is_a_part(list.drop_last(), pending);
    } else {
        assert(still_pending(list, pending) =~= list.filter(|r: RecordView| r.enabled && pending.contains(r.id)));
    }
}

/// A subscription is found under its id exactly if it is there.
pub proof fn subscriptions_are_found(list: Seq<SubscriptionView>, id: Seq<char>)
    ensures
        subscription_place(list, id) >= 0 ==> subscription_place(list, id) < list.len() && list[subscription_place(list, id)].id == id,
        subscription_place(list, id) < 0 ==> forall|i: int| 0 <= i < list.len() ==> (#[trigger] list[i]).id != id,
    decreases list.len(),
{
    if list.len() > 0 {
        let shorter = list.drop_last();
        subscriptions_are_found(shorter, id);
        assert forall|i: int| 0 <= i < list.len() && subscription_place(list, id) < 0 implies (#[trigger] list[i]).id != id by {
            if i < shorter.len() {
                assert(list[i] == shorter[i]);
            }
        }
    }
}

/// A run is found under the id of its project exactly if it is there.
pub proof fn runs_are_found(list: Seq<RunView>, project: Seq<char>)
    ensures
        active_place(list, project) >= 0 ==> active_place(list, project) < list.len() && list[active_place(list, project)].record.id
            == project,
        active_place(list, project) < 0 ==> forall|i: int| 0 <= i < list.len() ==> (#[trigger] list[i]).record.id != project,
    decreases list.len(),
{
    if list.len() > 0 {
        let shorter = list.drop_last();
        runs_are_found(shorter, project);
        assert forall|i: int| 0 <= i < list.len() && active_place(list, project) < 0 implies (#[trigger] list[i]).record.id
            != project by {
            if i < shorter.len() {
                assert(list[i] == shorter[i]);
            }
        }
    }
}

/// The followers of a project are those who have been answered when they asked
/// to follow it, and each is listed once.
pub proof fn followers_are_listed_once(list: Seq<SubscriptionView>, project: Seq<char>, connection: ConnectionId)
    ensures
        subscribers(list, project).contains(connection) <==> exists|i: int|
            0 <= i < list.len() && (#[trigger] list[i]).project_id == project && list[i].returned && list[i].connection == connection,
        subscribers(list, project).no_duplicates(),
    decreases list.len(),
{
    if list.len() > 0 {
        let shorter = list.drop_last();
        let last = list.last();
        let rest = subscribers(shorter, project);
        let all = subscribers(list, project);
        followers_are_listed_once(shorter, project, connection);
        assert(list[list.len() - 1] == last);
        assert(rest.push(last.connection)[rest.len() as int] == last.connection);
        if rest.contains(connection) {
            let i = choose|i: int|
                0 <= i < shorter.len() && (#[trigger] shorter[i]).project_id == project && shorter[i].returned
                    && shorter[i].connection == connection;
            assert(list[i] == shorter[i]);
            let k = choose|k: int| 0 <= k < rest.len() && rest[k] == connection;
            assert(all[k] == connection);
        }
        if exists|i: int|
            0 <= i < list.len() && (#[trigger] list[i]).project_id == project && list[i].returned && list[i].connection
                == connection {
            let i = choose|i: int|
                0 <= i < list.len() && (#[trigger] list[i]).project_id == project && list[i].returned && list[i].connection
                    == connection;
            if i < shorter.len() {
                assert(shorter[i] == list[i]);
            } else if !rest.contains(last.connection) {
                assert(all[rest.len() as int] == connection);
            }
        }
        if all.contains(connection) && !rest.contains(connection) {
            let k = choose|k: int| 0 <= k < all.len() && all[k] == connection;
            assert(k == rest.len()) by {
                if k < rest.len() {
                    assert(rest[k] == connection);
                }
            }
            assert(list[list.len() - 1].connection == connection);
        }
    }
}

} // verus!
