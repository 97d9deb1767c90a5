//! Sending to clients, and the ends of connections and subscriptions.

use crate::envelope::{error_frame, event_frame, result_frame};
use crate::framing::serialize_bounded;
use crate::json::{json_bytes, Json};
use crate::protocol::{reserve_outbound, CapacityPermit, ConnectionId, CounterName, TerminalFrame, WriterMessage};
use crate::server::model::{connection_place, subscribers, subscription_permit, subscription_place,
    subscriptions_dropped, subscriptions_off, subscriptions_on, waiter_permit, waiters_dropped, waiters_off,
    waiters_on, Connection, Effect, ServerView, Subscription, SubscriptionView, Waiter, WaiterView};
use crate::server::Server;
use crate::text::same_text;
use crate::views::{views, views_push, views_remove, views_update};
use vstd::prelude::*;

verus! {

impl Server {
    /// Where a connection stands among the open ones.
    pub(crate) fn find_connection(&self, id: ConnectionId) -> (at: Option<usize>)
        ensures
            at matches Some(i) ==> connection_place(self@.connections, id) == i && i < self.connections@.len(),
            at is None ==> connection_place(self@.connections, id) == -1,
    {
        let ghost all = self.connections@;
        let mut i: usize = self.connections.len();
        assert(all.take(i as int) =~= all);
        while i > 0
            invariant
                i <= all.len(),
                all == self.connections@,
                connection_place(all, id) == connection_place(all.take(i as int), id),
            decreases i,
        {
            proof {
                assert(all.take(i as int).drop_last() =~= all.take(i - 1));
                assert(all.take(i as int).last() == all[i - 1]);
            }
            if self.connections[i - 1].id == id {
                return Some(i - 1);
            }
            i -= 1;
        }
        None
    }

    pub fn is_connected(&self, id: ConnectionId) -> (connected: bool)
        ensures
            connected == self@.connected(id),
    {
        self.find_connection(id).is_some()
    }

    /// Queues a frame for a connection; says whether it did.
    pub(crate) fn send_queued_frame(&mut self, connection: ConnectionId, frame: &Json, close_on_failure: bool) -> (sent: bool)
        ensures
            (final(self)@, sent) == old(self)@.queued(connection, frame@, close_on_failure),
    {
        let ghost before = self@;
        proof {
            crate::protocol::ledger_is_total(&self.ledger);
        }
        let at: usize = match self.find_connection(connection) {
            Some(at) => at,
            None => {
                return false;
            },
        };
        let bytes = match serialize_bounded(frame, self.limits.frame_bytes) {
            Some(bytes) => bytes,
            None => {
                if close_on_failure {
                    self.push_effect(Effect::Shutdown { connection });
                }
                return false;
            },
        };
        let ghost count = bytes@.len() as usize;
        let limits = self.limits;
        let outbound = match reserve_outbound(bytes, &mut self.ledger, connection, limits) {
            Some(outbound) => outbound,
            None => {
                if close_on_failure {
                    self.push_effect(Effect::Shutdown { connection });
                }
                return false;
            },
        };
        let outbound = match outbound.reserve_writer_slot(&mut self.ledger, limits.egress_frames) {
            Some(outbound) => outbound,
            None => {
                proof {
                    crate::protocol::reserved_bytes_are_undone(before.ledger, connection, count);
                }
                if close_on_failure {
                    self.push_effect(Effect::Shutdown { connection });
                }
                return false;
            },
        };
        if !self.connections[at].writer_open {
            outbound.release(&mut self.ledger);
            proof {
                crate::protocol::a_written_frame_frees_what_it_held(before.ledger, connection, json_bytes(frame@), limits);
            }
            if close_on_failure {
                self.push_effect(Effect::Shutdown { connection });
            }
            return false;
        }
        self.push_effect(Effect::Deliver { connection, message: WriterMessage::Frame(outbound) });
        true
    }

    /// Queues the last frame of a request or subscription; says whether it did.
    pub(crate) fn send_terminal_frame(&mut self, connection: ConnectionId, frame: &Json, owner: CapacityPermit, required: bool) -> (sent: bool)
        ensures
            (final(self)@, sent) == old(self)@.ended(connection, frame@, owner, required),
    {
        let ghost before = self@;
        let at: usize = match self.find_connection(connection) {
            Some(at) => at,
            None => {
                owner.release(&mut self.ledger);
                return false;
            },
        };
        let limits = self.limits;
        let bytes = match serialize_bounded(frame, limits.frame_bytes) {
            Some(bytes) => bytes,
            None => {
                owner.release(&mut self.ledger);
                self.push_effect(Effect::Shutdown { connection });
                return false;
            },
        };
        let capacity = match CapacityPermit::try_acquire(
            &mut self.ledger,
            CounterName::WriterFrames(connection),
            limits.egress_frames,
        ) {
            Some(slot) => {
                owner.release(&mut self.ledger);
                slot
            },
            None => owner,
        };
        let terminal = if required {
            TerminalFrame::new(bytes, capacity, &mut self.ledger, connection)
        } else {
            match reserve_outbound(bytes, &mut self.ledger, connection, limits) {
                Some(outbound) => TerminalFrame::from_outbound(outbound, capacity),
                None => {
                    capacity.release(&mut self.ledger);
                    self.push_effect(Effect::Shutdown { connection });
                    return false;
                },
            }
        };
        if !self.connections[at].writer_open {
            terminal.release(&mut self.ledger);
            self.push_effect(Effect::Shutdown { connection });
            return false;
        }
        self.push_effect(Effect::Deliver { connection, message: WriterMessage::Terminal(terminal) });
        true
    }

    /// Answers a request.
    pub(crate) fn send_result(&mut self, connection: ConnectionId, id: &str, result: Json) -> (sent: bool)
        ensures
            (final(self)@, sent) == old(self)@.result_sent(connection, id@, result@),
    {
        let frame = result_frame(id, result);
        self.send_queued_frame(connection, &frame, true)
    }

    /// Refuses a request.
    pub(crate) fn send_error(&mut self, connection: ConnectionId, id: &str, code: &str, message: &str)
        ensures
            final(self)@ == old(self)@.error_sent(connection, id@, code@, message@),
    {
        let frame = error_frame(id, code, message);
        let _ = self.send_queued_frame(connection, &frame, true);
    }

    fn owes_delivery(&self, connection: ConnectionId) -> (owes: bool)
        ensures
            owes == self@.owes_delivery(connection),
    {
        if self.is_connected(connection) && self.ledger.used(CounterName::RequiredDeliveries(connection)) > 0 {
            return true;
        }
        let ghost all = views(self.waiters@);
        let mut i: usize = 0;
        assert(all.take(0) =~= Seq::<WaiterView>::empty());
        while i < self.waiters.len()
            invariant
                i <= self.waiters@.len(),
                all == views(self.waiters@),
                all == self@.waiters,
                waiters_on(all.take(i as int), connection).len() == 0,
            decreases self.waiters@.len() - i,
        {
            proof {
                assert(all.take(i + 1).drop_last() =~= all.take(i as int));
                assert(all.take(i + 1).last() == self.waiters@[i as int]@);
            }
            if self.waiters[i].connection == connection {
                proof {
                    waiters_on_grows(all, connection, i + 1);
                }
                return true;
            }
            i += 1;
        }
        assert(all.take(i as int) =~= all);
        false
    }

    fn has_headroom(&self, connection: ConnectionId) -> (room: bool)
        ensures
            room == self@.has_headroom(connection),
    {
        if !self.is_connected(connection) {
            return false;
        }
        let frames = self.ledger.used(CounterName::WriterFrames(connection));
        let owed = self.ledger.used(CounterName::RequiredDeliveries(connection));
        match frames.checked_add(owed) {
            Some(total) => total < self.limits.egress_frames,
            None => false,
        }
    }

    /// Sends an event that must not cost a connection what it is owed.
    fn send_lifecycle_event(&mut self, connection: ConnectionId, name: &str, payload: &Json)
        ensures
            final(self)@ == old(self)@.lifecycle_event_sent(connection, name@, payload@),
    {
        let protected = self.owes_delivery(connection);
        if protected && !self.has_headroom(connection) {
            return;
        }
        let frame = event_frame(name, payload.copied());
        let _ = self.send_queued_frame(connection, &frame, !protected);
    }

    /// Sends an event to every connection.
    pub(crate) fn broadcast_lifecycle_event(&mut self, name: &str, payload: &Json)
        ensures
            final(self)@ == old(self)@.broadcast(name@, payload@),
    {
        let ghost before = self@;
        let ghost all = self.connections@;
        let mut i: usize = 0;
        assert(all.take(0) =~= Seq::<Connection>::empty());
        while i < self.connections.len()
            invariant
                i <= all.len(),
                all == before.connections,
                self.connections@ == all,
                self@ == before.broadcast_to(all.take(i as int), name@, payload@),
            decreases all.len() - i,
        {
            let id = self.connections[i].id;
            proof {
                assert(all.take(i + 1).drop_last() =~= all.take(i as int));
                assert(all.take(i + 1).last() == all[i as int]);
            }
            self.send_lifecycle_event(id, name, payload);
            assert(self@.connections == all);
            i += 1;
        }
        assert(all.take(i as int) =~= all);
    }

    fn project_subscribers(&self, project: &str) -> (list: Vec<ConnectionId>)
        ensures
            list@ == subscribers(self@.subscriptions, project@),
    {
        let ghost all = views(self.subscriptions@);
        let mut list: Vec<ConnectionId> = Vec::new();
        let mut i: usize = 0;
        assert(all.take(0) =~= Seq::<SubscriptionView>::empty());
        while i < self.subscriptions.len()
            invariant
                i <= self.subscriptions@.len(),
                all == views(self.subscriptions@),
                list@ == subscribers(all.take(i as int), project@),
            decreases self.subscriptions@.len() - i,
        {
            let subscription = &self.subscriptions[i];
            proof {
                assert(all.take(i + 1).drop_last() =~= all.take(i as int));
                assert(all.take(i + 1).last() == subscription@);
            }
            if subscription.returned && same_text(subscription.project_id.as_str(), project) && !holds_connection(
                &list,
                subscription.connection,
            ) {
                list.push(subscription.connection);
            }
            i += 1;
        }
        assert(all.take(i as int) =~= all);
        list
    }

    /// Sends an event to everyone who follows a project.
    pub(crate) fn send_project_event(&mut self, project: &str, name: &str, payload: &Json)
        ensures
            final(self)@ == old(self)@.project_event_sent(project@, name@, payload@),
    {
        let ghost before = self@;
        let list = self.project_subscribers(project);
        let mut i: usize = 0;
        assert(list@.take(0) =~= Seq::<ConnectionId>::empty());
        while i < list.len()
            invariant
                i <= list@.len(),
                self@ == before.event_sent_to(list@.take(i as int), name@, payload@),
            decreases list@.len() - i,
        {
            proof {
                assert(list@.take(i + 1).drop_last() =~= list@.take(i as int));
                assert(list@.take(i + 1).last() == list@[i as int]);
            }
            let frame = event_frame(name, payload.copied());
            let _ = self.send_queued_frame(list[i], &frame, true);
            i += 1;
        }
        assert(list@.take(i as int) =~= list@);
    }

    /// Where a subscription stands.
    pub(crate) fn find_subscription(&self, id: &str) -> (at: Option<usize>)
        ensures
            at matches Some(i) ==> subscription_place(self@.subscriptions, id@) == i && i < self.subscriptions@.len(),
            at is None ==> subscription_place(self@.subscriptions, id@) == -1,
    {
        let ghost all = views(self.subscriptions@);
        let mut i: usize = self.subscriptions.len();
        assert(all.take(i as int) =~= all);
        while i > 0
            invariant
                i <= self.subscriptions@.len(),
                all == views(self.subscriptions@),
                subscription_place(all, id@) == subscription_place(all.take(i as int), id@),
            decreases i,
        {
            proof {
                assert(all.take(i as int).drop_last() =~= all.take(i - 1));
                assert(all.take(i as int).last() == self.subscriptions@[i - 1]@);
            }
            if same_text(self.subscriptions[i - 1].id.as_str(), id) {
                return Some(i - 1);
            }
            i -= 1;
        }
        None
    }

    /// Ends a subscription without telling anyone.
    pub(crate) fn remove_subscription(&mut self, id: &str)
        ensures
            final(self)@ == old(self)@.without_subscription(id@),
    {
        match self.find_subscription(id) {
            Some(at) => {
                proof {
                    views_remove(self.subscriptions@, at as int);
                }
                let subscription = self.subscriptions.remove(at);
                let permit = subscription_place_permit(subscription.connection);
                permit.release(&mut self.ledger);
            },
            None => {},
        }
    }

    /// The client has been told the id of its subscription.
    pub(crate) fn mark_subscription_returned(&mut self, id: &str)
        ensures
            final(self)@ == old(self)@.subscription_returned(id@),
    {
        match self.find_subscription(id) {
            Some(at) => {
                let known = Subscription {
                    id: self.subscriptions[at].id.clone(),
                    connection: self.subscriptions[at].connection,
                    project_id: self.subscriptions[at].project_id.clone(),
                    returned: true,
                };
                proof {
                    views_update(self.subscriptions@, at as int, known);
                }
                self.subscriptions.set(at, known);
            },
            None => {},
        }
    }

    /// Forgets a connection and everything that belongs to it.
    fn forget_connection(&mut self, at: usize, connection: ConnectionId)
        requires
            connection_place(old(self)@.connections, connection) == at,
            at < old(self).connections@.len(),
        ensures
            final(self)@ == old(self)@.without_connection(connection),
    {
        self.connections.remove(at);
        self.drop_subscriptions(connection);
        self.drop_waiters(connection);
    }

    fn drop_subscriptions(&mut self, connection: ConnectionId)
        ensures
            final(self)@ == (ServerView {
                subscriptions: subscriptions_off(old(self)@.subscriptions, connection),
                ledger: subscriptions_dropped(old(self)@.ledger, subscriptions_on(old(self)@.subscriptions, connection)),
                ..old(self)@
            }),
    {
        let ghost before = self@;
        let ghost all = views(self.subscriptions@);
        let mut source: Vec<Subscription> = Vec::new();
        std::mem::swap(&mut source, &mut self.subscriptions);
        let ghost start = source@;
        let mut kept: Vec<Subscription> = Vec::new();
        assert(views(kept@) =~= Seq::<SubscriptionView>::empty());
        assert(all.take(0) =~= Seq::<SubscriptionView>::empty());
        for subscription in it: source
            invariant
                it.seq() == start,
                all == views(start),
                0 <= it.index() <= all.len(),
                views(kept@) == subscriptions_off(all.take(it.index() as int), connection),
                self.subscriptions@ == Seq::<Subscription>::empty(),
                self@ == (ServerView {
                    subscriptions: views(self.subscriptions@),
                    ledger: subscriptions_dropped(before.ledger, subscriptions_on(all.take(it.index() as int), connection)),
                    ..before
                }),
        {
            let ghost i = it.index() as int;
            proof {
                assert(all.take(i + 1).drop_last() =~= all.take(i));
                assert(all.take(i + 1).last() == subscription@);
            }
            if subscription.connection == connection {
                let permit = subscription_place_permit(connection);
                permit.release(&mut self.ledger);
                proof {
                    let on = subscriptions_on(all.take(i + 1), connection);
                    assert(on.drop_last() =~= subscriptions_on(all.take(i), connection));
                }
            } else {
                proof {
                    views_push(kept@, subscription);
                }
                kept.push(subscription);
            }
        }
        assert(all.take(all.len() as int) =~= all);
        self.subscriptions = kept;
    }

    fn drop_waiters(&mut self, connection: ConnectionId)
        ensures
            final(self)@ == (ServerView {
                waiters: waiters_off(old(self)@.waiters, connection),
                ledger: waiters_dropped(old(self)@.ledger, waiters_on(old(self)@.waiters, connection)),
                ..old(self)@
            }),
    {
        let ghost before = self@;
        let ghost all = views(self.waiters@);
        let mut source: Vec<Waiter> = Vec::new();
        std::mem::swap(&mut source, &mut self.waiters);
        let ghost start = source@;
        let mut kept: Vec<Waiter> = Vec::new();
        assert(views(kept@) =~= Seq::<WaiterView>::empty());
        assert(all.take(0) =~= Seq::<WaiterView>::empty());
        for waiter in it: source
            invariant
                it.seq() == start,
                all == views(start),
                0 <= it.index() <= all.len(),
                views(kept@) == waiters_off(all.take(it.index() as int), connection),
                self.waiters@ == Seq::<Waiter>::empty(),
                self@ == (ServerView {
                    waiters: views(self.waiters@),
                    ledger: waiters_dropped(before.ledger, waiters_on(all.take(it.index() as int), connection)),
                    ..before
                }),
        {
            let ghost i = it.index() as int;
            proof {
                assert(all.take(i + 1).drop_last() =~= all.take(i));
                assert(all.take(i + 1).last() == waiter@);
            }
            if waiter.connection == connection {
                let permit = waiter_place_permit();
                permit.release(&mut self.ledger);
                proof {
                    let on = waiters_on(all.take(i + 1), connection);
                    assert(on.drop_last() =~= waiters_on(all.take(i), connection));
                }
            } else {
                proof {
                    views_push(kept@, waiter);
                }
                kept.push(waiter);
            }
        }
        assert(all.take(all.len() as int) =~= all);
        self.waiters = kept;
    }

    /// Closes a connection after what it is owed has been written.
    pub fn close_connection(&mut self, connection: ConnectionId)
        ensures
            final(self)@ == old(self)@.closed(connection),
    {
        match self.find_connection(connection) {
            Some(at) => {
                self.forget_connection(at, connection);
                let await_delivery = self.ledger.used(CounterName::RequiredDeliveries(connection)) > 0;
                self.push_effect(Effect::Close { connection, await_delivery });
            },
            None => {},
        }
    }

    /// Closes a connection at once.
    pub fn drop_connection(&mut self, connection: ConnectionId)
        ensures
            final(self)@ == old(self)@.dropped(connection),
    {
        match self.find_connection(connection) {
            Some(at) => {
                self.forget_connection(at, connection);
                self.push_effect(Effect::Drop { connection });
            },
            None => {},
        }
    }
}

/// The place that a waiter holds.
pub(crate) fn waiter_place_permit() -> (permit: CapacityPermit)
    ensures
        permit == waiter_permit(),
{
    CapacityPermit { primary: CounterName::Waiters, secondary: None }
}

/// The places that a subscription holds.
pub(crate) fn subscription_place_permit(connection: ConnectionId) -> (permit: CapacityPermit)
    ensures
        permit == subscription_permit(connection),
{
    CapacityPermit {
        primary: CounterName::ConnectionSubscriptions(connection),
        secondary: Some(CounterName::GlobalSubscriptions),
    }
}

fn holds_connection(list: &Vec<ConnectionId>, connection: ConnectionId) -> (found: bool)
    ensures
        found == list@.contains(connection),
{
    let mut i: usize = 0;
    while i < list.len()
        invariant
            i <= list@.len(),
            forall|j: int| 0 <= j < i ==> list@[j] != connection,
        decreases list@.len() - i,
    {
        if list[i] == connection {
            return true;
        }
        i += 1;
    }
    false
}

proof fn waiters_on_grows(list: Seq<WaiterView>, connection: ConnectionId, i: int)
    requires
        0 <= i <= list.len(),
    ensures
        waiters_on(list.take(i), connection).len() <= waiters_on(list, connection).len(),
    decreases list.len(),
{
    if i == list.len() {
        assert(list.take(i) =~= list);
    } else {
        assert(list.drop_last().take(i) =~= list.take(i));
        waiters_on_grows(list.drop_last(), connection, i);
    }
}

} // verus!
