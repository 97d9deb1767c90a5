//! The daemon's state and what each event makes of it.

use crate::envelope::{error_message, event_message, result_message};
use crate::json::{json_bytes, JsonView};
use crate::limits::Limits;
use crate::project::{same_record, RecordView};
use crate::protocol::{delivery_owed, fits, outbound_fits, outbound_reserved, permit_released, reserved,
    terminal_released, CapacityPermit, ConnectionId, CounterName, LedgerView, OutboundView, TerminalView,
    WriterMessageView};
use crate::state::{CacheView, DirtyView};
use crate::text::decimal_text;
use crate::time::Duration;
use vstd::prelude::*;

verus! {

// ---------------------------------------------------------------------------
// What the daemon holds

/// One open connection, and whether its writer still takes frames.
#[derive(Clone, Copy, Debug, PartialEq, Eq, Structural)]
pub struct Connection {
    pub id: ConnectionId,
    pub writer_open: bool,
}

/// A client's interest in a project; `returned` once the client knows its id.
#[derive(Debug, PartialEq, Eq)]
pub struct Subscription {
    pub id: String,
    pub connection: ConnectionId,
    pub project_id: String,
    pub returned: bool,
}

pub struct SubscriptionView {
    pub id: Seq<char>,
    pub connection: ConnectionId,
    pub project_id: Seq<char>,
    pub returned: bool,
}

impl View for Subscription {
    type V = SubscriptionView;

    open spec fn view(&self) -> SubscriptionView {
        SubscriptionView {
            id: self.id@,
            connection: self.connection,
            project_id: self.project_id@,
            returned: self.returned,
        }
    }
}

/// What a waiting request asked for.
#[derive(Debug, PartialEq, Eq)]
pub enum WaitKind {
    Get,
    Subscribe(String),
}

pub enum WaitKindView {
    Get,
    Subscribe(Seq<char>),
}

impl View for WaitKind {
    type V = WaitKindView;

    open spec fn view(&self) -> WaitKindView {
        match self {
            WaitKind::Get => WaitKindView::Get,
            WaitKind::Subscribe(id) => WaitKindView::Subscribe(id@),
        }
    }
}

/// A request that waits for the first snapshot of a project.
#[derive(Debug, PartialEq, Eq)]
pub struct Waiter {
    pub project_id: String,
    pub connection: ConnectionId,
    pub request_id: String,
    pub kind: WaitKind,
}

pub struct WaiterView {
    pub project_id: Seq<char>,
    pub connection: ConnectionId,
    pub request_id: Seq<char>,
    pub kind: WaitKindView,
}

impl View for Waiter {
    type V = WaiterView;

    open spec fn view(&self) -> WaiterView {
        WaiterView {
            project_id: self.project_id@,
            connection: self.connection,
            request_id: self.request_id@,
            kind: self.kind@,
        }
    }
}

/// One run of a project's snapshot command, for one registration of it.
#[derive(Debug, PartialEq, Eq)]
pub struct SnapshotRun {
    pub record: crate::project::ProjectRecord,
    pub generation: u64,
}

pub struct RunView {
    pub record: RecordView,
    pub generation: u64,
}

impl View for SnapshotRun {
    type V = RunView;

    open spec fn view(&self) -> RunView {
        RunView { record: self.record@, generation: self.generation }
    }
}

pub open spec fn same_run(a: RunView, b: RunView) -> bool {
    same_record(a.record, b.record) && a.generation == b.generation
}

impl SnapshotRun {
    pub fn same(&self, other: &SnapshotRun) -> (same: bool)
        ensures
            same == same_run(self@, other@),
    {
        self.record.same(&other.record) && self.generation == other.generation
    }

    pub fn copied(&self) -> (copy: SnapshotRun)
        ensures
            copy@ == self@,
    {
        SnapshotRun { record: self.record.clone(), generation: self.generation }
    }
}

/// What is to be done outside, in order.
#[derive(Debug, PartialEq, Eq)]
pub enum Effect {
    /// Hand a message to the writer of a connection.
    Deliver { connection: ConnectionId, message: crate::protocol::WriterMessage },
    /// Shut a connection's stream down; its reader will notice.
    Shutdown { connection: ConnectionId },
    /// Let the writer finish, then close; wait for frames that are owed.
    Close { connection: ConnectionId, await_delivery: bool },
    /// Close at once.
    Drop { connection: ConnectionId },
    /// Start a snapshot command.
    Launch { run: SnapshotRun },
    /// Stop a snapshot command.
    Cancel { run: SnapshotRun },
}

pub enum EffectView {
    Deliver { connection: ConnectionId, message: WriterMessageView },
    Shutdown { connection: ConnectionId },
    Close { connection: ConnectionId, await_delivery: bool },
    Drop { connection: ConnectionId },
    Launch { run: RunView },
    Cancel { run: RunView },
}

impl View for Effect {
    type V = EffectView;

    open spec fn view(&self) -> EffectView {
        match self {
            Effect::Deliver { connection, message } => EffectView::Deliver { connection: *connection, message: message@ },
            Effect::Shutdown { connection } => EffectView::Shutdown { connection: *connection },
            Effect::Close { connection, await_delivery } => EffectView::Close {
                connection: *connection,
                await_delivery: *await_delivery,
            },
            Effect::Drop { connection } => EffectView::Drop { connection: *connection },
            Effect::Launch { run } => EffectView::Launch { run: run@ },
            Effect::Cancel { run } => EffectView::Cancel { run: run@ },
        }
    }
}

/// Everything that the daemon knows.
#[verifier::ext_equal]
pub struct ServerView {
    pub limits: Limits,
    pub server_version: Seq<char>,
    pub registry: Seq<char>,
    pub projects: Seq<RecordView>,
    pub caches: Map<Seq<char>, CacheView>,
    pub generations: Map<Seq<char>, u64>,
    pub dirty: DirtyView,
    pub connections: Seq<Connection>,
    pub subscriptions: Seq<SubscriptionView>,
    pub waiters: Seq<WaiterView>,
    pub active: Seq<RunView>,
    pub deferred: Seq<Seq<char>>,
    pub retained_cache_bytes: usize,
    pub pending_watches: Seq<Seq<char>>,
    pub watch_retry_due: Option<Duration>,
    pub registry_due: Option<Duration>,
    pub registry_poll_due: Duration,
    pub next_connection: u64,
    pub next_subscription: u64,
    pub next_generation: u64,
    pub ledger: LedgerView,
    pub effects: Seq<EffectView>,
}

// ---------------------------------------------------------------------------
// Lists

pub open spec fn waiters_for(list: Seq<WaiterView>, project: Seq<char>) -> Seq<WaiterView>
    decreases list.len(),
{
    if list.len() == 0 {
        Seq::empty()
    } else if list.last().project_id == project {
        waiters_for(list.drop_last(), project).push(list.last())
    } else {
        waiters_for(list.drop_last(), project)
    }
}

pub open spec fn waiters_beside(list: Seq<WaiterView>, project: Seq<char>) -> Seq<WaiterView>
    decreases list.len(),
{
    if list.len() == 0 {
        Seq::empty()
    } else if list.last().project_id != project {
        waiters_beside(list.drop_last(), project).push(list.last())
    } else {
        waiters_beside(list.drop_last(), project)
    }
}

pub open spec fn waiters_on(list: Seq<WaiterView>, connection: ConnectionId) -> Seq<WaiterView>
    decreases list.len(),
{
    if list.len() == 0 {
        Seq::empty()
    } else if list.last().connection == connection {
        waiters_on(list.drop_last(), connection).push(list.last())
    } else {
        waiters_on(list.drop_last(), connection)
    }
}

pub open spec fn waiters_off(list: Seq<WaiterView>, connection: ConnectionId) -> Seq<WaiterView>
    decreases list.len(),
{
    if list.len() == 0 {
        Seq::empty()
    } else if list.last().connection != connection {
        waiters_off(list.drop_last(), connection).push(list.last())
    } else {
        waiters_off(list.drop_last(), connection)
    }
}

pub open spec fn subscriptions_for(list: Seq<SubscriptionView>, project: Seq<char>) -> Seq<SubscriptionView>
    decreases list.len(),
{
    if list.len() == 0 {
        Seq::empty()
    } else if list.last().project_id == project {
        subscriptions_for(list.drop_last(), project).push(list.last())
    } else {
        subscriptions_for(list.drop_last(), project)
    }
}

pub open spec fn subscriptions_beside(list: Seq<SubscriptionView>, project: Seq<char>) -> Seq<SubscriptionView>
    decreases list.len(),
{
    if list.len() == 0 {
        Seq::empty()
    } else if list.last().project_id != project {
        subscriptions_beside(list.drop_last(), project).push(list.last())
    } else {
        subscriptions_beside(list.drop_last(), project)
    }
}

pub open spec fn subscriptions_on(list: Seq<SubscriptionView>, connection: ConnectionId) -> Seq<SubscriptionView>
    decreases list.len(),
{
    if list.len() == 0 {
        Seq::empty()
    } else if list.last().connection == connection {
        subscriptions_on(list.drop_last(), connection).push(list.last())
    } else {
        subscriptions_on(list.drop_last(), connection)
    }
}

pub open spec fn subscriptions_off(list: Seq<SubscriptionView>, connection: ConnectionId) -> Seq<SubscriptionView>
    decreases list.len(),
{
    if list.len() == 0 {
        Seq::empty()
    } else if list.last().connection != connection {
        subscriptions_off(list.drop_last(), connection).push(list.last())
    } else {
        subscriptions_off(list.drop_last(), connection)
    }
}

/// The place of the subscription with that id, or -1.
pub open spec fn subscription_place(list: Seq<SubscriptionView>, id: Seq<char>) -> int
    decreases list.len(),
{
    if list.len() == 0 {
        -1
    } else if list.last().id == id {
        list.len() - 1
    } else {
        subscription_place(list.drop_last(), id)
    }
}

/// The place of the connection with that id, or -1.
pub open spec fn connection_place(list: Seq<Connection>, id: ConnectionId) -> int
    decreases list.len(),
{
    if list.len() == 0 {
        -1
    } else if list.last().id == id {
        list.len() - 1
    } else {
        connection_place(list.drop_last(), id)
    }
}

/// The place of the run for that project, or -1.
pub open spec fn active_place(list: Seq<RunView>, project: Seq<char>) -> int
    decreases list.len(),
{
    if list.len() == 0 {
        -1
    } else if list.last().record.id == project {
        list.len() - 1
    } else {
        active_place(list.drop_last(), project)
    }
}

/// The place of the first record with that id, or -1.
pub open spec fn record_place(list: Seq<RecordView>, id: Seq<char>) -> int
    decreases list.len(),
{
    if list.len() == 0 {
        -1
    } else if record_place(list.drop_last(), id) >= 0 {
        record_place(list.drop_last(), id)
    } else if list.last().id == id {
        list.len() - 1
    } else {
        -1
    }
}

/// The record with that id.
pub open spec fn record_with(list: Seq<RecordView>, id: Seq<char>) -> Option<RecordView> {
    let at = record_place(list, id);
    if at >= 0 {
        Some(list[at])
    } else {
        None
    }
}

/// The texts but for one.
pub open spec fn texts_except(list: Seq<Seq<char>>, text: Seq<char>) -> Seq<Seq<char>>
    decreases list.len(),
{
    if list.len() == 0 {
        Seq::empty()
    } else if list.last() != text {
        texts_except(list.drop_last(), text).push(list.last())
    } else {
        texts_except(list.drop_last(), text)
    }
}

pub open spec fn texts_with(list: Seq<Seq<char>>, text: Seq<char>) -> Seq<Seq<char>> {
    if list.contains(text) {
        list
    } else {
        list.push(text)
    }
}

// ---------------------------------------------------------------------------
// Places that waiters and subscriptions hold

/// Every waiter holds one place among all waiters.
pub open spec fn waiter_permit() -> CapacityPermit {
    CapacityPermit { primary: CounterName::Waiters, secondary: None }
}

/// Every subscription holds one place of its connection and one overall.
pub open spec fn subscription_permit(connection: ConnectionId) -> CapacityPermit {
    CapacityPermit {
        primary: CounterName::ConnectionSubscriptions(connection),
        secondary: Some(CounterName::GlobalSubscriptions),
    }
}

pub open spec fn waiters_dropped(ledger: LedgerView, list: Seq<WaiterView>) -> LedgerView
    decreases list.len(),
{
    if list.len() == 0 {
        ledger
    } else {
        permit_released(waiters_dropped(ledger, list.drop_last()), waiter_permit())
    }
}

pub open spec fn subscriptions_dropped(ledger: LedgerView, list: Seq<SubscriptionView>) -> LedgerView
    decreases list.len(),
{
    if list.len() == 0 {
        ledger
    } else {
        permit_released(
            subscriptions_dropped(ledger, list.drop_last()),
            subscription_permit(list.last().connection),
        )
    }
}

/// The id of a subscription.
pub open spec fn subscription_id(connection: ConnectionId, ordinal: u64) -> Seq<char> {
    "s-"@ + decimal_text(connection as nat) + "-"@ + decimal_text(ordinal as nat)
}

// ---------------------------------------------------------------------------
// Sending

impl ServerView {
    pub open spec fn connected(self, connection: ConnectionId) -> bool {
        connection_place(self.connections, connection) >= 0
    }

    pub open spec fn writer_open(self, connection: ConnectionId) -> bool {
        self.connections[connection_place(self.connections, connection)].writer_open
    }

    pub open spec fn with_effect(self, effect: EffectView) -> ServerView {
        ServerView { effects: self.effects.push(effect), ..self }
    }

    pub open spec fn with_ledger(self, ledger: LedgerView) -> ServerView {
        ServerView { ledger, ..self }
    }

    /// A frame could not be queued.
    pub open spec fn not_queued(self, connection: ConnectionId, close_on_failure: bool) -> (ServerView, bool) {
        if close_on_failure {
            (self.with_effect(EffectView::Shutdown { connection }), false)
        } else {
            (self, false)
        }
    }

    /// A frame is queued if it is within the frame size, its bytes fit the
    /// connection's and the overall egress, there is a place in the writer's
    /// queue, and the writer is there; otherwise the connection may be shut
    /// down.
    pub open spec fn queued(self, connection: ConnectionId, frame: JsonView, close_on_failure: bool) -> (ServerView, bool) {
        let bytes = json_bytes(frame);
        let count = bytes.len() as usize;
        if !self.connected(connection) {
            (self, false)
        } else if bytes.len() > self.limits.frame_bytes || !outbound_fits(self.ledger, connection, count, self.limits) || !fits(
            self.ledger,
            CounterName::WriterFrames(connection),
            1,
            self.limits.egress_frames,
        ) || !self.writer_open(connection) {
            self.not_queued(connection, close_on_failure)
        } else {
            let slot = CapacityPermit { primary: CounterName::WriterFrames(connection), secondary: None };
            (
                self.with_ledger(
                    reserved(outbound_reserved(self.ledger, connection, count), CounterName::WriterFrames(connection), 1),
                ).with_effect(
                    EffectView::Deliver {
                        connection,
                        message: WriterMessageView::Frame(OutboundView { bytes, connection, writer_slot: Some(slot) }),
                    },
                ),
                true,
            )
        }
    }

    /// The capacity that a terminal frame holds, and the ledger with it: a
    /// place in the writer's queue if there is one, and otherwise the place
    /// that its request or subscription held.
    pub open spec fn terminal_capacity(self, connection: ConnectionId, owner: CapacityPermit) -> (LedgerView, CapacityPermit) {
        if fits(self.ledger, CounterName::WriterFrames(connection), 1, self.limits.egress_frames) {
            (
                permit_released(reserved(self.ledger, CounterName::WriterFrames(connection), 1), owner),
                CapacityPermit { primary: CounterName::WriterFrames(connection), secondary: None },
            )
        } else {
            (self.ledger, owner)
        }
    }

    /// The last frame of a request or subscription is queued whenever it is
    /// within the frame size and the writer is there; if it is `required` no
    /// egress limit counts, and otherwise its bytes must fit.
    pub open spec fn ended(self, connection: ConnectionId, frame: JsonView, owner: CapacityPermit, required: bool) -> (ServerView, bool) {
        let bytes = json_bytes(frame);
        let count = bytes.len() as usize;
        if !self.connected(connection) {
            (self.with_ledger(permit_released(self.ledger, owner)), false)
        } else if bytes.len() > self.limits.frame_bytes {
            self.with_ledger(permit_released(self.ledger, owner)).not_queued(connection, true)
        } else {
            let (ledger, capacity) = self.terminal_capacity(connection, owner);
            if !required && !outbound_fits(ledger, connection, count, self.limits) {
                self.with_ledger(permit_released(ledger, capacity)).not_queued(connection, true)
            } else {
                let terminal = TerminalView {
                    bytes,
                    accounted: if required {
                        None
                    } else {
                        Some(OutboundView { bytes, connection, writer_slot: None })
                    },
                    capacity,
                    required_deliveries: if required {
                        Some(connection)
                    } else {
                        None
                    },
                };
                let taken = if required {
                    delivery_owed(ledger, connection)
                } else {
                    outbound_reserved(ledger, connection, count)
                };
                if self.writer_open(connection) {
                    (
                        self.with_ledger(taken).with_effect(
                            EffectView::Deliver { connection, message: WriterMessageView::Terminal(terminal) },
                        ),
                        true,
                    )
                } else {
                    self.with_ledger(terminal_released(taken, terminal)).not_queued(connection, true)
                }
            }
        }
    }

    pub open spec fn result_sent(self, connection: ConnectionId, id: Seq<char>, result: JsonView) -> (ServerView, bool) {
        self.queued(connection, result_message(id, result), true)
    }

    pub open spec fn error_sent(self, connection: ConnectionId, id: Seq<char>, code: Seq<char>, message: Seq<char>) -> ServerView {
        self.queued(connection, error_message(id, code, message), true).0
    }

    /// Frames that a connection is owed: those under way, and the answers to
    /// its waiting requests.
    pub open spec fn owes_delivery(self, connection: ConnectionId) -> bool {
        (self.connected(connection) && self.ledger[CounterName::RequiredDeliveries(connection)] > 0) || waiters_on(
            self.waiters,
            connection,
        ).len() > 0
    }

    pub open spec fn has_headroom(self, connection: ConnectionId) -> bool {
        self.connected(connection) && self.ledger[CounterName::WriterFrames(connection)] + self.ledger[CounterName::RequiredDeliveries(
            connection,
        )] < self.limits.egress_frames
    }

    /// An event that a connection which is owed frames can do without: it
    /// never takes the last place, and its failure never costs the connection.
    pub open spec fn lifecycle_event_sent(self, connection: ConnectionId, name: Seq<char>, payload: JsonView) -> ServerView {
        let protected = self.owes_delivery(connection);
        if protected && !self.has_headroom(connection) {
            self
        } else {
            self.queued(connection, event_message(name, payload), !protected).0
        }
    }

    /// The event is sent to each of these connections, in their order.
    pub open spec fn broadcast_to(self, connections: Seq<Connection>, name: Seq<char>, payload: JsonView) -> ServerView
        decreases connections.len(),
    {
        if connections.len() == 0 {
            self
        } else {
            self.broadcast_to(connections.drop_last(), name, payload).lifecycle_event_sent(
                connections.last().id,
                name,
                payload,
            )
        }
    }

    pub open spec fn broadcast(self, name: Seq<char>, payload: JsonView) -> ServerView {
        self.broadcast_to(self.connections, name, payload)
    }

    /// The event is sent to each of the connections.
    pub open spec fn event_sent_to(self, connections: Seq<ConnectionId>, name: Seq<char>, payload: JsonView) -> ServerView
        decreases connections.len(),
    {
        if connections.len() == 0 {
            self
        } else {
            self.event_sent_to(connections.drop_last(), name, payload).queued(
                connections.last(),
                event_message(name, payload),
                true,
            ).0
        }
    }

    /// The event is sent once to every connection with a subscription to the
    /// project whose id it knows.
    pub open spec fn project_event_sent(self, project: Seq<char>, name: Seq<char>, payload: JsonView) -> ServerView {
        self.event_sent_to(subscribers(self.subscriptions, project), name, payload)
    }
}

/// The connections with a returned subscription to a project, each once, in
/// the order of their first.
pub open spec fn subscribers(list: Seq<SubscriptionView>, project: Seq<char>) -> Seq<ConnectionId>
    decreases list.len(),
{
    if list.len() == 0 {
        Seq::empty()
    } else {
        let rest = subscribers(list.drop_last(), project);
        let last = list.last();
        if last.returned && last.project_id == project && !rest.contains(last.connection) {
            rest.push(last.connection)
        } else {
            rest
        }
    }
}

// ---------------------------------------------------------------------------
// Connections, subscriptions and waiters

impl ServerView {
    /// A connection and everything that belongs to it is gone.
    pub open spec fn without_connection(self, connection: ConnectionId) -> ServerView {
        let at = connection_place(self.connections, connection);
        ServerView {
            connections: self.connections.remove(at),
            subscriptions: subscriptions_off(self.subscriptions, connection),
            waiters: waiters_off(self.waiters, connection),
            ledger: waiters_dropped(
                subscriptions_dropped(self.ledger, subscriptions_on(self.subscriptions, connection)),
                waiters_on(self.waiters, connection),
            ),
            ..self
        }
    }

    pub open spec fn closed(self, connection: ConnectionId) -> ServerView {
        if self.connected(connection) {
            let after = self.without_connection(connection);
            after.with_effect(
                EffectView::Close {
                    connection,
                    await_delivery: after.ledger[CounterName::RequiredDeliveries(connection)] > 0,
                },
            )
        } else {
            self
        }
    }

    pub open spec fn dropped(self, connection: ConnectionId) -> ServerView {
        if self.connected(connection) {
            self.without_connection(connection).with_effect(EffectView::Drop { connection })
        } else {
            self
        }
    }

    /// A subscription is gone and its places are free.
    pub open spec fn without_subscription(self, id: Seq<char>) -> ServerView {
        let at = subscription_place(self.subscriptions, id);
        if at >= 0 {
            ServerView {
                subscriptions: self.subscriptions.remove(at),
                ledger: permit_released(self.ledger, subscription_permit(self.subscriptions[at].connection)),
                ..self
            }
        } else {
            self
        }
    }

    /// The client knows the id of its subscription.
    pub open spec fn subscription_returned(self, id: Seq<char>) -> ServerView {
        let at = subscription_place(self.subscriptions, id);
        if at >= 0 {
            ServerView {
                subscriptions: self.subscriptions.update(
                    at,
                    SubscriptionView { returned: true, ..self.subscriptions[at] },
                ),
                ..self
            }
        } else {
            self
        }
    }

    pub open spec fn can_wait(self, project: Seq<char>) -> bool {
        waiters_for(self.waiters, project).len() < self.limits.cold_waiters && fits(
            self.ledger,
            CounterName::Waiters,
            1,
            self.limits.cold_waiters,
        )
    }

    pub open spec fn with_waiter(self, waiter: WaiterView) -> ServerView {
        ServerView {
            waiters: self.waiters.push(waiter),
            ledger: reserved(self.ledger, CounterName::Waiters, 1),
            ..self
        }
    }

    pub open spec fn can_subscribe(self, connection: ConnectionId) -> bool {
        &&& self.connected(connection)
        &&& fits(
            self.ledger,
            CounterName::ConnectionSubscriptions(connection),
            1,
            self.limits.connection_subscriptions,
        )
        &&& fits(self.ledger, CounterName::GlobalSubscriptions, 1, self.limits.global_subscriptions)
    }

    pub open spec fn with_subscription(self, subscription: SubscriptionView) -> ServerView {
        ServerView {
            subscriptions: self.subscriptions.push(subscription),
            ledger: reserved(
                reserved(self.ledger, CounterName::ConnectionSubscriptions(subscription.connection), 1),
                CounterName::GlobalSubscriptions,
                1,
            ),
            ..self
        }
    }
}

} // verus!
