//! The ends of a project's subscriptions, and of the daemon.

use crate::envelope::{error_frame, error_message, event_frame, event_message};
use crate::json::{Json, JsonObject, JsonView};
use crate::protocol::permit_released;
use crate::server::client::{subscription_place_permit, waiter_place_permit};
use crate::server::events::cancelling_only_asks;
use crate::server::model::{active_place, connection_place, same_run, subscription_permit, subscriptions_beside,
    subscriptions_for, waiter_permit, waiters_for, Effect, EffectView, RunView, ServerView, SnapshotRun, Subscription,
    SubscriptionView, WaitKind, WaitKindView, Waiter, WaiterView};
use crate::server::Server;
use crate::text::same_text;
use crate::views::{views, views_push, views_remove};
use vstd::prelude::*;

verus! {

/// What the owner of a subscription is told at its end.
pub open spec fn ended_payload(subscription: Seq<char>, reason: Seq<char>) -> JsonView {
    JsonView::Object(
        Map::empty().insert("subscriptionId"@, JsonView::Text(subscription)).insert("reason"@, JsonView::Text(reason)),
    )
}

impl ServerView {
    /// A subscription that has left the list ends: its owner is told if it
    /// knows of it, whatever the egress limits say.
    pub open spec fn subscription_ended(self, subscription: SubscriptionView, reason: Seq<char>) -> ServerView {
        let c = subscription.connection;
        if subscription.returned {
            self.ended(
                c,
                event_message("subscription.ended"@, ended_payload(subscription.id, reason)),
                subscription_permit(c),
                true,
            ).0
        } else {
            self.with_ledger(permit_released(self.ledger, subscription_permit(c)))
        }
    }

    pub open spec fn subscriptions_ended(self, list: Seq<SubscriptionView>, reason: Seq<char>) -> ServerView
        decreases list.len(),
    {
        if list.len() == 0 {
            self
        } else {
            self.subscriptions_ended(list.drop_last(), reason).subscription_ended(list.last(), reason)
        }
    }

    /// A waiting request is refused, whatever the egress limits say.
    pub open spec fn waiter_refused(self, waiter: WaiterView, message: Seq<char>) -> ServerView {
        self.ended(
            waiter.connection,
            error_message(waiter.request_id, "unavailable"@, message),
            waiter_permit(),
            true,
        ).0
    }

    /// The project of a waiting request is gone: a subscription is refused,
    /// and so is a plain request unless the project lives on elsewhere.
    pub open spec fn waiter_displaced(self, waiter: WaiterView, restart_gets: bool) -> ServerView {
        match waiter.kind {
            WaitKindView::Subscribe(_) => self.waiter_refused(
                waiter,
                "subscription ended because the project was replaced"@,
            ),
            WaitKindView::Get => if restart_gets {
                ServerView { waiters: self.waiters.push(waiter), ..self }
            } else {
                self.waiter_refused(
                    waiter,
                    "snapshot unavailable because the project was removed, disabled, or replaced"@,
                )
            },
        }
    }

    pub open spec fn waiters_displaced(self, list: Seq<WaiterView>, restart_gets: bool) -> ServerView
        decreases list.len(),
    {
        if list.len() == 0 {
            self
        } else {
            self.waiters_displaced(list.drop_last(), restart_gets).waiter_displaced(list.last(), restart_gets)
        }
    }

    /// Everyone who follows a project or waits for it is told of its end.
    pub open spec fn project_ended(self, project: Seq<char>, reason: Seq<char>, restart_gets: bool) -> ServerView {
        let told = ServerView {
            subscriptions: subscriptions_beside(self.subscriptions, project),
            ..self
        }.subscriptions_ended(subscriptions_for(self.subscriptions, project), reason);
        told.waiters_taken(project).waiters_displaced(waiters_for(told.waiters, project), restart_gets)
    }

    /// Every running command is to be stopped.
    pub open spec fn all_cancelled(self, runs: Seq<RunView>) -> ServerView
        decreases runs.len(),
    {
        if runs.len() == 0 {
            self
        } else {
            self.all_cancelled(runs.drop_last()).with_effect(EffectView::Cancel { run: runs.last() })
        }
    }

    pub open spec fn waiters_refused(self, list: Seq<WaiterView>, message: Seq<char>) -> ServerView
        decreases list.len(),
    {
        if list.len() == 0 {
            self
        } else {
            self.waiters_refused(list.drop_last(), message).waiter_refused(list.last(), message)
        }
    }

    /// The daemon begins to stop: commands are cancelled, every waiting
    /// request is refused and every subscription ends.
    pub open spec fn stopping(self) -> ServerView {
        let refused = ServerView { waiters: Seq::empty(), ..self.all_cancelled(self.active) }.waiters_refused(
            self.waiters,
            "snapshot unavailable because the daemon is shutting down"@,
        );
        ServerView { subscriptions: Seq::empty(), ..refused }.subscriptions_ended(refused.subscriptions, "shutdown"@)
    }

    /// A cancelled command has ended.
    pub open spec fn run_drained(self, run: RunView) -> ServerView {
        let at = active_place(self.active, run.record.id);
        if at >= 0 && same_run(self.active[at], run) {
            ServerView { active: self.active.remove(at), ..self }
        } else {
            self
        }
    }

    /// Every connection is closed.
    pub open spec fn all_closed(self) -> ServerView
        decreases self.connections.len(),
    {
        if self.connections.len() == 0 {
            self
        } else {
            self.closed(self.connections.last().id).all_closed()
        }
    }
}

impl Server {
    fn end_subscription(&mut self, subscription: &Subscription, reason: &str)
        ensures
            final(self)@ == old(self)@.subscription_ended(subscription@, reason@),
    {
        let connection = subscription.connection;
        if subscription.returned {
            let payload = JsonObject::new()
                .with("subscriptionId", Json::text(subscription.id.as_str()))
                .with("reason", Json::text(reason))
                .done();
            let frame = event_frame("subscription.ended", payload);
            let _ = self.send_terminal_frame(connection, &frame, subscription_place_permit(connection), true);
        } else {
            subscription_place_permit(connection).release(&mut self.ledger);
        }
    }

    fn end_subscriptions(&mut self, list: &Vec<Subscription>, reason: &str)
        ensures
            final(self)@ == old(self)@.subscriptions_ended(views(list@), reason@),
    {
        let ghost start = self@;
        let ghost all = views(list@);
        let mut i: usize = 0;
        assert(all.take(0) =~= Seq::<SubscriptionView>::empty());
        while i < list.len()
            invariant
                i <= list@.len(),
                all == views(list@),
                self@ == start.subscriptions_ended(all.take(i as int), reason@),
            decreases list@.len() - i,
        {
            proof {
                assert(all.take(i + 1).drop_last() =~= all.take(i as int));
                assert(all.take(i + 1).last() == list@[i as int]@);
            }
            self.end_subscription(&list[i], reason);
            i += 1;
        }
        assert(all.take(i as int) =~= all);
    }

    fn refuse_waiter(&mut self, waiter: &Waiter, message: &str)
        ensures
            final(self)@ == old(self)@.waiter_refused(waiter@, message@),
    {
        let frame = error_frame(waiter.request_id.as_str(), "unavailable", message);
        let _ = self.send_terminal_frame(waiter.connection, &frame, waiter_place_permit(), true);
    }

    /// Takes the subscriptions to a project.
    fn take_subscriptions(&mut self, project: &str) -> (taken: Vec<Subscription>)
        ensures
            views(taken@) == subscriptions_for(old(self)@.subscriptions, project@),
            final(self)@ == (ServerView {
                subscriptions: subscriptions_beside(old(self)@.subscriptions, project@),
                ..old(self)@
            }),
    {
        let ghost all = views(self.subscriptions@);
        let mut source: Vec<Subscription> = Vec::new();
        std::mem::swap(&mut source, &mut self.subscriptions);
        let ghost start = source@;
        let mut kept: Vec<Subscription> = Vec::new();
        let mut taken: Vec<Subscription> = Vec::new();
        assert(views(kept@) =~= Seq::<SubscriptionView>::empty());
        assert(views(taken@) =~= Seq::<SubscriptionView>::empty());
        assert(all.take(0) =~= Seq::<SubscriptionView>::empty());
        for subscription in it: source
            invariant
                it.seq() == start,
                all == views(start),
                0 <= it.index() <= all.len(),
                views(kept@) == subscriptions_beside(all.take(it.index() as int), project@),
                views(taken@) == subscriptions_for(all.take(it.index() as int), project@),
        {
            let ghost i = it.index() as int;
            proof {
                assert(all.take(i + 1).drop_last() =~= all.take(i));
                assert(all.take(i + 1).last() == subscription@);
            }
            if same_text(subscription.project_id.as_str(), project) {
                proof {
                    views_push(taken@, subscription);
                }
                taken.push(subscription);
            } else {
                proof {
                    views_push(kept@, subscription);
                }
                kept.push(subscription);
            }
        }
        assert(all.take(all.len() as int) =~= all);
        self.subscriptions = kept;
        taken
    }

    fn displace_waiters(&mut self, list: Vec<Waiter>, restart_gets: bool)
        ensures
            final(self)@ == old(self)@.waiters_displaced(views(list@), restart_gets),
    {
        let ghost before = self@;
        let ghost all = views(list@);
        let ghost start = list@;
        assert(all.take(0) =~= Seq::<WaiterView>::empty());
        for waiter in it: list
            invariant
                it.seq() == start,
                all == views(start),
                0 <= it.index() <= all.len(),
                self@ == before.waiters_displaced(all.take(it.index() as int), restart_gets),
        {
            let ghost i = it.index() as int;
            proof {
                assert(all.take(i + 1).drop_last() =~= all.take(i));
                assert(all.take(i + 1).last() == waiter@);
            }
            let subscribes = match &waiter.kind {
                WaitKind::Subscribe(_) => true,
                WaitKind::Get => false,
            };
            if subscribes {
                self.refuse_waiter(&waiter, "subscription ended because the project was replaced");
            } else if restart_gets {
                proof {
                    views_push(self.waiters@, waiter);
                }
                self.waiters.push(waiter);
            } else {
                self.refuse_waiter(
                    &waiter,
                    "snapshot unavailable because the project was removed, disabled, or replaced",
                );
            }
        }
        assert(all.take(all.len() as int) =~= all);
    }

    /// Tells everyone who follows a project or waits for it that it ended.
    pub fn end_project_subscriptions(&mut self, project: &str, reason: &str, restart_gets: bool)
        ensures
            final(self)@ == old(self)@.project_ended(project@, reason@, restart_gets),
    {
        let subscriptions = self.take_subscriptions(project);
        self.end_subscriptions(&subscriptions, reason);
        let waiters = self.take_waiters(project);
        self.displace_waiters(waiters, restart_gets);
    }

    fn cancel_active(&mut self)
        ensures
            final(self)@ == old(self)@.all_cancelled(old(self)@.active),
    {
        let ghost start = self@;
        let ghost all = views(self.active@);
        let mut i: usize = 0;
        assert(all.take(0) =~= Seq::<RunView>::empty());
        while i < self.active.len()
            invariant
                i <= all.len(),
                all == views(self.active@),
                self@ == start.all_cancelled(all.take(i as int)),
            decreases all.len() - i,
        {
            proof {
                assert(all.take(i + 1).drop_last() =~= all.take(i as int));
                assert(all.take(i + 1).last() == self.active@[i as int]@);
            }
            let run = self.active[i].copied();
            self.push_effect(Effect::Cancel { run });
            i += 1;
        }
        assert(all.take(i as int) =~= all);
    }

    /// Begins to stop the daemon.
    pub fn begin_shutdown(&mut self)
        ensures
            final(self)@ == old(self)@.stopping(),
    {
        let ghost before = self@;
        self.cancel_active();
        proof {
            cancelling_only_asks(before, before.active);
        }
        let mut waiters: Vec<Waiter> = Vec::new();
        std::mem::swap(&mut waiters, &mut self.waiters);
        let ghost start = self@;
        let ghost all = views(waiters@);
        assert(views(self.waiters@) =~= Seq::<WaiterView>::empty());
        let message = "snapshot unavailable because the daemon is shutting down";
        let mut i: usize = 0;
        assert(all.take(0) =~= Seq::<WaiterView>::empty());
        while i < waiters.len()
            invariant
                i <= waiters@.len(),
                all == views(waiters@),
                self@ == start.waiters_refused(all.take(i as int), message@),
            decreases waiters@.len() - i,
        {
            proof {
                assert(all.take(i + 1).drop_last() =~= all.take(i as int));
                assert(all.take(i + 1).last() == waiters@[i as int]@);
            }
            self.refuse_waiter(&waiters[i], message);
            i += 1;
        }
        assert(all.take(i as int) =~= all);
        let mut subscriptions: Vec<Subscription> = Vec::new();
        std::mem::swap(&mut subscriptions, &mut self.subscriptions);
        assert(views(self.subscriptions@) =~= Seq::<SubscriptionView>::empty());
        self.end_subscriptions(&subscriptions, "shutdown");
    }

    /// Takes note of the end of a command while the daemon stops.
    pub fn drain_snapshot(&mut self, run: &SnapshotRun)
        ensures
            final(self)@ == old(self)@.run_drained(run@),
    {
        match self.find_active(run.record.id.as_str()) {
            Some(at) => {
                if self.active[at].same(run) {
                    proof {
                        views_remove(self.active@, at as int);
                    }
                    self.active.remove(at);
                }
            },
            None => {},
        }
    }

    /// Closes every connection.
    pub fn close_all_connections(&mut self)
        ensures
            final(self)@ == old(self)@.all_closed(),
    {
        let ghost before = self@;
        while self.connections.len() > 0
            invariant
                before.all_closed() == self@.all_closed(),
            decreases self.connections@.len(),
        {
            let last: usize = self.connections.len() - 1;
            let id = self.connections[last].id;
            assert(connection_place(self@.connections, id) == last);
            self.close_connection(id);
        }
    }
}

} // verus!
