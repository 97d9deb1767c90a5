//! Everything that can happen to the daemon, and what each kind of happening
//! leaves alone.

use crate::json::JsonView;
use crate::project::{RecordView, SnapshotView};
use crate::protocol::ConnectionId;
use crate::server::model::{subscribers, subscriptions_beside, subscriptions_for, waiters_for, RunView, ServerView,
    WaiterView};
use crate::server::replacement::{broadcasting_only_sends, displacing_only_sends, ending_only_sends};
use crate::server::registry_watch::updated_payload;
use crate::server::snapshots::{failed_payload, replaced_payload, KeptView};
use crate::snapshot::{failure_code, failure_text, FailureView};
use crate::project::ProjectionView;
use crate::time::Duration;
use vstd::prelude::*;

verus! {

/// One thing that happens.
pub enum EventView {
    /// A client is let in; there is room for it.
    Admitted,
    /// A connection's writer stopped.
    WriterGone(ConnectionId),
    /// A frame of a connected client has been parsed.
    Frame(ConnectionId, Result<JsonView, Seq<char>>),
    /// A client sent too much.
    Oversized(ConnectionId, Option<Seq<char>>),
    /// A run ended.
    SnapshotDone(RunView, Result<SnapshotView, FailureView>),
    /// Projects may be due.
    Due,
    /// Paths changed.
    Changed(Seq<Seq<char>>),
    /// Changes may have been missed.
    Missed,
    /// The registry changed; some watches failed.
    Registry(Seq<RecordView>, Seq<Seq<char>>),
    /// Watches were set at last.
    Watched(Seq<RecordView>),
    /// Clients are gone.
    Gone(Seq<ConnectionId>),
    /// The daemon begins to stop.
    Stopping,
    /// A run ended while the daemon stops.
    Drained(RunView),
    /// The daemon closes all connections.
    Closing,
}

impl ServerView {
    /// The event can happen now.
    pub open spec fn allows(self, event: EventView) -> bool {
        match event {
            EventView::Admitted => self.has_room_for_connection() && self.has_ids(),
            EventView::Frame(connection, _) => self.connected(connection) && self.has_ids(),
            EventView::Registry(new, _) => self.next_generation + self.projects.len() + new.len() < u64::MAX,
            _ => true,
        }
    }

    /// The state after an event.
    pub open spec fn after(self, event: EventView, now: Duration) -> ServerView {
        match event {
            EventView::Admitted => self.admitted(),
            EventView::WriterGone(connection) => self.writer_gone(connection),
            EventView::Frame(connection, parsed) => self.frame_handled(connection, parsed, now),
            EventView::Oversized(connection, id) => self.oversized(connection, id),
            EventView::SnapshotDone(run, result) => self.finished(run, result, now).deferred_launched(now),
            EventView::Due => self.due_started(now),
            EventView::Changed(paths) => self.paths_changed(paths, now),
            EventView::Missed => self.all_marked(self.projects, now),
            EventView::Registry(new, failed) => self.registry_replaced(new, failed, now),
            EventView::Watched(installed) => self.watches_installed(installed, now),
            EventView::Gone(connections) => self.all_dropped(connections),
            EventView::Stopping => self.stopping(),
            EventView::Drained(run) => self.run_drained(run),
            EventView::Closing => self.all_closed(),
        }
    }
}

/// Two states agree on everything but the clients: connections,
/// subscriptions, waiting requests, the ledger and what is to be done
/// outside.
pub open spec fn same_projects(a: ServerView, b: ServerView) -> bool {
    a == (ServerView {
        connections: a.connections,
        subscriptions: a.subscriptions,
        waiters: a.waiters,
        ledger: a.ledger,
        effects: a.effects,
        ..b
    })
}

/// Answering waiting requests touches clients only.
pub proof fn answering_touches_clients_only(view: ServerView, list: Seq<WaiterView>, projection: Option<ProjectionView>, message: Seq<char>, too_large: bool)
    ensures
        same_projects(view.waiters_answered_from(list, projection, message, too_large), view),
    decreases list.len(),
{
    if list.len() > 0 {
        answering_touches_clients_only(view, list.drop_last(), projection, message, too_large);
    }
}

/// Sending an event to subscribers touches clients only.
pub proof fn events_touch_clients_only(view: ServerView, connections: Seq<ConnectionId>, name: Seq<char>, payload: JsonView)
    ensures
        ({
            let sent = view.event_sent_to(connections, name, payload);
            sent == (ServerView { ledger: sent.ledger, effects: sent.effects, ..view })
        }),
    decreases connections.len(),
{
    if connections.len() > 0 {
        events_touch_clients_only(view, connections.drop_last(), name, payload);
    }
}

/// Telling subscribers about an outcome touches clients only.
pub proof fn telling_touches_clients_only(view: ServerView, id: Seq<char>, outcome: Result<KeptView, FailureView>, had_good: bool)
    ensures
        ({
            let told = view.subscribers_told(id, outcome, had_good);
            told == (ServerView { ledger: told.ledger, effects: told.effects, ..view })
        }),
{
    let list = subscribers(view.subscriptions, id);
    match outcome {
        Ok(_) => match view.cached_projection(id) {
            Some(projection) => {
                events_touch_clients_only(view, list, "snapshot.replaced"@, replaced_payload(id, projection));
            },
            None => {},
        },
        Err(failure) => {
            events_touch_clients_only(
                view,
                list,
                "snapshot.failed"@,
                failed_payload(id, failure_text(failure), failure_code(failure)),
            );
        },
    }
}

/// Ending a project's subscriptions touches clients only.
pub proof fn ending_touches_clients_only(view: ServerView, project: Seq<char>, reason: Seq<char>, restart_gets: bool)
    ensures
        same_projects(view.project_ended(project, reason, restart_gets), view),
{
    let taken = ServerView { subscriptions: subscriptions_beside(view.subscriptions, project), ..view };
    let list = subscriptions_for(view.subscriptions, project);
    ending_only_sends(taken, list, reason);
    let told = taken.subscriptions_ended(list, reason);
    displacing_only_sends(told.waiters_taken(project), waiters_for(told.waiters, project), restart_gets);
}

/// Refusing waiting requests touches clients only.
pub proof fn refusing_only_sends(view: ServerView, list: Seq<WaiterView>, message: Seq<char>)
    ensures
        ({
            let sent = view.waiters_refused(list, message);
            sent == (ServerView { ledger: sent.ledger, effects: sent.effects, ..view })
        }),
    decreases list.len(),
{
    if list.len() > 0 {
        refusing_only_sends(view, list.drop_last(), message);
    }
}

pub proof fn cancelling_only_asks(view: ServerView, runs: Seq<RunView>)
    ensures
        view.all_cancelled(runs) == (ServerView { effects: view.all_cancelled(runs).effects, ..view }),
    decreases runs.len(),
{
    if runs.len() > 0 {
        cancelling_only_asks(view, runs.drop_last());
    }
}

/// Stopping touches clients only, and asks for the runs to be stopped.
pub proof fn stopping_touches_clients_only(view: ServerView)
    ensures
        same_projects(view.stopping(), view),
{
    cancelling_only_asks(view, view.active);
    let start = ServerView { waiters: Seq::empty(), ..view.all_cancelled(view.active) };
    let message = "snapshot unavailable because the daemon is shutting down"@;
    refusing_only_sends(start, view.waiters, message);
    let refused = start.waiters_refused(view.waiters, message);
    ending_only_sends(
        ServerView { subscriptions: Seq::empty(), ..refused },
        refused.subscriptions,
        "shutdown"@,
    );
}

/// Closing connections touches clients only.
pub proof fn closing_touches_clients_only(view: ServerView)
    ensures
        same_projects(view.all_closed(), view),
    decreases view.connections.len(),
{
    if view.connections.len() > 0 {
        closing_touches_clients_only(view.closed(view.connections.last().id));
    }
}

pub proof fn dropping_touches_clients_only(view: ServerView, connections: Seq<ConnectionId>)
    ensures
        same_projects(view.all_dropped(connections), view),
    decreases connections.len(),
{
    if connections.len() > 0 {
        dropping_touches_clients_only(view, connections.drop_last());
    }
}

/// Announcing projects touches no more than the ledger and what is to be done
/// outside.
pub proof fn announcing_only_sends(view: ServerView, list: Seq<RecordView>)
    ensures
        ({
            let sent = view.projects_announced(list);
            sent == (ServerView { ledger: sent.ledger, effects: sent.effects, ..view })
        }),
    decreases list.len(),
{
    if list.len() > 0 {
        announcing_only_sends(view, list.drop_last());
        let before = view.projects_announced(list.drop_last());
        broadcasting_only_sends(
            before,
            before.connections,
            "project.updated"@,
            updated_payload(list.last().id, list.last().path, true),
        );
    }
}

} // verus!
