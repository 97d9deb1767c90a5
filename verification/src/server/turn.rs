//! The beginning of the daemon, its connections, and the messages that its
//! readers and runs send it.

use crate::json::json_parsed;
use crate::limits::Limits;
use crate::ordered::TextMap;
use crate::project::{ProjectRecord, RecordView, Snapshot, SnapshotView};
use crate::protocol::{empty_ledger, ConnectionId, Ledger};
use crate::server::model::{connection_place, Connection, RunView, ServerView, SnapshotRun};
use crate::server::registry_watch::REGISTRY_POLL_NANOS;
use crate::server::replacement::starting_keeps_window;
use crate::server::snapshots::{answering_keeps_dirty, window_is_kept};
use crate::server::{cache_views, cache_views_insert, Server};
use crate::snapshot::{run_view, FailureView, SnapshotFailure};
use crate::state::{fresh_cache, CacheView, DirtyTracker, DirtyView, ProjectCache};
use crate::time::Duration;
use crate::views::{option_view, views};
use vstd::prelude::*;

verus! {

// ---------------------------------------------------------------------------
// The beginning

/// The registrations are numbered in order, from one.
pub open spec fn first_generations(projects: Seq<RecordView>) -> Map<Seq<char>, u64>
    decreases projects.len(),
{
    if projects.len() == 0 {
        Map::empty()
    } else {
        first_generations(projects.drop_last()).insert(projects.last().id, projects.len() as u64)
    }
}

pub open spec fn first_caches(projects: Seq<RecordView>) -> Map<Seq<char>, CacheView>
    decreases projects.len(),
{
    if projects.len() == 0 {
        Map::empty()
    } else {
        first_caches(projects.drop_last()).insert(projects.last().id, fresh_cache(projects.last()))
    }
}

/// A daemon that knows its projects and nothing else.
pub open spec fn new_server(limits: Limits, version: Seq<char>, registry: Seq<char>, projects: Seq<RecordView>, window: Duration) -> ServerView {
    ServerView {
        limits,
        server_version: version,
        registry,
        projects,
        caches: first_caches(projects),
        generations: first_generations(projects),
        dirty: DirtyView { window, projects: Map::empty() },
        connections: Seq::empty(),
        subscriptions: Seq::empty(),
        waiters: Seq::empty(),
        active: Seq::empty(),
        deferred: Seq::empty(),
        retained_cache_bytes: 0,
        pending_watches: Seq::empty(),
        watch_retry_due: None,
        registry_due: None,
        registry_poll_due: Duration { nanos: REGISTRY_POLL_NANOS },
        next_connection: 1,
        next_subscription: 1,
        next_generation: (projects.len() + 1) as u64,
        ledger: empty_ledger(),
        effects: Seq::empty(),
    }
}

impl Server {
    /// A daemon for a registry.
    pub fn new(limits: Limits, version: &str, registry: &str, projects: Vec<ProjectRecord>, window: Duration) -> (server: Server)
        requires
            projects@.len() < u64::MAX,
        ensures
            server@ == new_server(limits, version@, registry@, views(projects@), window),
    {
        let ghost all = views(projects@);
        let mut caches: TextMap<ProjectCache> = TextMap::new();
        let mut generations: TextMap<u64> = TextMap::new();
        let mut i: usize = 0;
        assert(all.take(0) =~= Seq::<RecordView>::empty());
        assert(cache_views(caches@) =~= Map::<Seq<char>, CacheView>::empty());
        while i < projects.len()
            invariant
                i <= projects@.len(),
                all == views(projects@),
                projects@.len() < u64::MAX,
                cache_views(caches@) == first_caches(all.take(i as int)),
                generations@ == first_generations(all.take(i as int)),
            decreases projects@.len() - i,
        {
            proof {
                assert(all.take(i + 1).drop_last() =~= all.take(i as int));
                assert(all.take(i + 1).last() == projects@[i as int]@);
            }
            let fresh = ProjectCache::new(projects[i].clone());
            proof {
                cache_views_insert(caches@, projects@[i as int].id@, fresh);
            }
            caches.insert(projects[i].id.clone(), fresh);
            generations.insert(projects[i].id.clone(), i as u64 + 1);
            i += 1;
        }
        assert(all.take(i as int) =~= all);
        let next_generation: u64 = projects.len() as u64 + 1;
        let server = Server {
            limits,
            server_version: version.to_owned(),
            registry: registry.to_owned(),
            projects,
            caches,
            generations,
            dirty: DirtyTracker::new(window),
            connections: Vec::new(),
            subscriptions: Vec::new(),
            waiters: Vec::new(),
            active: Vec::new(),
            deferred: Vec::new(),
            retained_cache_bytes: 0,
            pending_watches: Vec::new(),
            watch_retry_due: None,
            registry_due: None,
            registry_poll_due: Duration { nanos: REGISTRY_POLL_NANOS },
            next_connection: 1,
            next_subscription: 1,
            next_generation,
            ledger: Ledger::new(),
            effects: Vec::new(),
        };
        assert(server@ =~= new_server(limits, version@, registry@, all, window));
        server
    }
}

// ---------------------------------------------------------------------------
// Connections

impl ServerView {
    pub open spec fn has_room_for_connection(self) -> bool {
        self.connections.len() < self.limits.connections
    }

    /// A client is let in under the next number.
    pub open spec fn admitted(self) -> ServerView {
        ServerView {
            connections: self.connections.push(Connection { id: self.next_connection, writer_open: true }),
            next_connection: (self.next_connection + 1) as u64,
            ..self
        }
    }

    /// A connection's writer takes no more frames.
    pub open spec fn writer_gone(self, connection: ConnectionId) -> ServerView {
        let at = connection_place(self.connections, connection);
        if at >= 0 {
            ServerView {
                connections: self.connections.update(at, Connection { id: connection, writer_open: false }),
                ..self
            }
        } else {
            self
        }
    }

    /// The connections have no reader and no request under way any more.
    pub open spec fn all_dropped(self, connections: Seq<ConnectionId>) -> ServerView
        decreases connections.len(),
    {
        if connections.len() == 0 {
            self
        } else {
            self.all_dropped(connections.drop_last()).dropped(connections.last())
        }
    }
}

impl Server {
    /// Lets a client in if there is room for it.
    pub fn add_connection(&mut self) -> (connection: Option<ConnectionId>)
        requires
            old(self)@.has_ids(),
        ensures
            connection == if old(self)@.has_room_for_connection() {
                Some(old(self)@.next_connection)
            } else {
                None::<ConnectionId>
            },
            final(self)@ == if old(self)@.has_room_for_connection() {
                old(self)@.admitted()
            } else {
                old(self)@
            },
    {
        if self.connections.len() >= self.limits.connections {
            return None;
        }
        let id = self.next_connection;
        self.next_connection = self.next_connection + 1;
        self.connections.push(Connection { id, writer_open: true });
        Some(id)
    }

    /// Takes note that a connection's writer takes no more frames.
    pub fn writer_stopped(&mut self, connection: ConnectionId)
        ensures
            final(self)@ == old(self)@.writer_gone(connection),
    {
        match self.find_connection(connection) {
            Some(at) => {
                self.connections.set(at, Connection { id: connection, writer_open: false });
            },
            None => {},
        }
    }

    /// Closes the connections that are of no use any more.
    pub fn drop_disconnected_connections(&mut self, disconnected: &Vec<ConnectionId>)
        ensures
            final(self)@ == old(self)@.all_dropped(disconnected@),
    {
        let ghost before = self@;
        let mut i: usize = 0;
        assert(disconnected@.take(0) =~= Seq::<ConnectionId>::empty());
        while i < disconnected.len()
            invariant
                i <= disconnected@.len(),
                self@ == before.all_dropped(disconnected@.take(i as int)),
            decreases disconnected@.len() - i,
        {
            proof {
                assert(disconnected@.take(i + 1).drop_last() =~= disconnected@.take(i as int));
                assert(disconnected@.take(i + 1).last() == disconnected@[i as int]);
            }
            self.drop_connection(disconnected[i]);
            i += 1;
        }
        assert(disconnected@.take(i as int) =~= disconnected@);
    }
}

// ---------------------------------------------------------------------------
// Messages

/// What readers and runs tell the daemon.
pub enum OwnerMessage {
    Request { connection: ConnectionId, frame: Vec<u8> },
    FrameTooLarge { connection: ConnectionId, request_id: Option<String> },
    SnapshotDone { run: SnapshotRun, result: Result<Snapshot, SnapshotFailure> },
}

pub enum MessageView {
    Request { connection: ConnectionId, frame: Seq<u8> },
    FrameTooLarge { connection: ConnectionId, request_id: Option<Seq<char>> },
    SnapshotDone { run: RunView, result: Result<SnapshotView, FailureView> },
}

impl View for OwnerMessage {
    type V = MessageView;

    open spec fn view(&self) -> MessageView {
        match self {
            OwnerMessage::Request { connection, frame } => MessageView::Request {
                connection: *connection,
                frame: frame@,
            },
            OwnerMessage::FrameTooLarge { connection, request_id } => MessageView::FrameTooLarge {
                connection: *connection,
                request_id: option_view(*request_id),
            },
            OwnerMessage::SnapshotDone { run, result } => MessageView::SnapshotDone {
                run: run@,
                result: run_view(*result),
            },
        }
    }
}

impl ServerView {
    /// A client sent more than a frame may hold.
    pub open spec fn oversized(self, connection: ConnectionId, request_id: Option<Seq<char>>) -> ServerView {
        let answered = match request_id {
            Some(id) => self.error_sent(connection, id, "frame_too_large"@, "frame exceeds maximum size"@),
            None => self,
        };
        answered.closed(connection)
    }

    pub open spec fn message_handled(self, message: MessageView, now: Duration) -> ServerView {
        match message {
            MessageView::Request { connection, frame } => if self.connected(connection) {
                self.frame_handled(connection, json_parsed(frame), now)
            } else {
                self
            },
            MessageView::FrameTooLarge { connection, request_id } => self.oversized(connection, request_id),
            MessageView::SnapshotDone { run, result } => self.finished(run, result, now).deferred_launched(now),
        }
    }
}

pub(crate) proof fn finishing_keeps_window(view: ServerView, run: RunView, result: Result<SnapshotView, FailureView>, now: Duration)
    ensures
        view.finished(run, result, now).dirty.window == view.dirty.window,
{
    let id = run.record.id;
    let at = crate::server::model::active_place(view.active, id);
    if at < 0 || !crate::server::model::same_run(view.active[at], run) {
    } else {
        let idle = ServerView { active: view.active.remove(at), ..view };
        if !idle.is_current(run) {
            let rested = idle.with_dirty(idle.dirty.ended(id, now));
            starting_keeps_window(rested, id, now);
            answering_keeps_dirty(
                rested.waiters_taken(id),
                crate::server::model::waiters_for(rested.waiters, id),
                rested.cached_projection(id),
                rested.failure_message(id),
                false,
            );
        } else {
            let outcome = idle.judged(run, result);
            let had_good = idle.cached_projection(id) is Some;
            let too_large = outcome matches Err(FailureView::OutputTooLarge(_));
            window_is_kept(idle, id, outcome, too_large, had_good);
        }
    }
}

impl Server {
    /// Takes note that a client sent more than a frame may hold.
    pub fn handle_oversized(&mut self, connection: ConnectionId, request_id: &Option<String>)
        ensures
            final(self)@ == old(self)@.oversized(connection, option_view(*request_id)),
    {
        match request_id {
            Some(id) => {
                self.send_error(connection, id.as_str(), "frame_too_large", "frame exceeds maximum size");
            },
            None => {},
        }
        self.close_connection(connection);
    }

    /// Handles one message.
    pub fn handle_message(&mut self, message: OwnerMessage, now: Duration)
        requires
            old(self)@.timely(now),
            old(self)@.has_ids(),
        ensures
            final(self)@ == old(self)@.message_handled(message@, now),
    {
        match message {
            OwnerMessage::Request { connection, frame } => {
                if self.is_connected(connection) {
                    self.handle_request(connection, frame.as_slice(), now);
                }
            },
            OwnerMessage::FrameTooLarge { connection, request_id } => {
                self.handle_oversized(connection, &request_id);
            },
            OwnerMessage::SnapshotDone { run, result } => {
                proof {
                    finishing_keeps_window(self@, run@, run_view(result), now);
                }
                self.finish_snapshot(run, result, now);
                self.launch_deferred_snapshots(now);
            },
        }
    }
}

} // verus!
