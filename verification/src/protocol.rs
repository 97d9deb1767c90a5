//! Capacity accounting and the frames that hold it.

use crate::limits::Limits;
use vstd::prelude::*;

verus! {

/// Names a client connection.
pub type ConnectionId = u64;

/// One bounded quantity.
#[derive(Clone, Copy, Debug, PartialEq, Eq, Structural)]
pub enum CounterName {
    WriterBytes(ConnectionId),
    WriterFrames(ConnectionId),
    RequiredDeliveries(ConnectionId),
    ConnectionSubscriptions(ConnectionId),
    GlobalWriterBytes,
    GlobalSubscriptions,
    Waiters,
}

/// How much of each bounded quantity is in use.
pub type LedgerView = Map<CounterName, usize>;

pub open spec fn fits(ledger: LedgerView, name: CounterName, count: usize, limit: usize) -> bool {
    ledger[name] + count <= limit
}

pub open spec fn reserved(ledger: LedgerView, name: CounterName, count: usize) -> LedgerView {
    ledger.insert(name, (ledger[name] + count) as usize)
}

pub open spec fn released(ledger: LedgerView, name: CounterName, count: usize) -> LedgerView {
    ledger.insert(
        name,
        if ledger[name] >= count {
            (ledger[name] - count) as usize
        } else {
            0
        },
    )
}

/// The book of what is in use.
pub struct Ledger {
    entries: Vec<(CounterName, usize)>,
}

impl Ledger {
    spec fn unique(entries: Seq<(CounterName, usize)>) -> bool {
        forall|i: int, j: int| 0 <= i < j < entries.len() ==> (#[trigger] entries[i]).0 != (#[trigger] entries[j]).0
    }

    #[verifier::type_invariant]
    spec fn consistent(self) -> bool {
        Self::unique(self.entries@)
    }

    spec fn count_in(entries: Seq<(CounterName, usize)>, name: CounterName) -> usize {
        if exists|i: int| 0 <= i < entries.len() && (#[trigger] entries[i]).0 == name {
            entries[choose|i: int| 0 <= i < entries.len() && (#[trigger] entries[i]).0 == name].1
        } else {
            0
        }
    }

    spec fn counts(entries: Seq<(CounterName, usize)>) -> LedgerView {
        Map::new(|name: CounterName| true, |name: CounterName| Self::count_in(entries, name))
    }

    pub closed spec fn contents(self) -> LedgerView {
        Self::counts(self.entries@)
    }

    proof fn count_found(entries: Seq<(CounterName, usize)>, at: int)
        requires
            Self::unique(entries),
            0 <= at < entries.len(),
        ensures
            Self::count_in(entries, entries[at].0) == entries[at].1,
    {
        let name = entries[at].0;
        let found = choose|i: int| 0 <= i < entries.len() && (#[trigger] entries[i]).0 == name;
        assert(entries[found].0 == name);
        if found != at {
            if found < at {
                assert(entries[found].0 != entries[at].0);
            } else {
                assert(entries[at].0 != entries[found].0);
            }
        }
    }
}

impl View for Ledger {
    type V = LedgerView;

    open spec fn view(&self) -> LedgerView {
        self.contents()
    }
}

/// Nothing is in use.
pub open spec fn empty_ledger() -> LedgerView {
    Map::new(|name: CounterName| true, |name: CounterName| 0usize)
}

impl Ledger {
    pub fn new() -> (ledger: Ledger)
        ensures
            ledger@ == empty_ledger(),
    {
        let ledger = Ledger { entries: Vec::new() };
        assert(ledger@ =~= empty_ledger());
        ledger
    }

    fn place(&self, name: CounterName) -> (at: Option<usize>)
        ensures
            self@.dom() == Set::<CounterName>::full(),
            at matches Some(i) ==> i < self.entries@.len() && self.entries@[i as int].0 == name
                && self@[name] == self.entries@[i as int].1,
            at is None ==> (forall|i: int| 0 <= i < self.entries@.len() ==> (#[trigger] self.entries@[i]).0 != name)
                && self@[name] == 0,
    {
        proof {
            use_type_invariant(self);
            assert(self@.dom() =~= Set::<CounterName>::full());
        }
        let mut i: usize = 0;
        while i < self.entries.len()
            invariant
                i <= self.entries@.len(),
                forall|j: int| 0 <= j < i ==> (#[trigger] self.entries@[j]).0 != name,
            decreases self.entries@.len() - i,
        {
            if self.entries[i].0 == name {
                proof {
                    use_type_invariant(self);
                    Self::count_found(self.entries@, i as int);
                }
                return Some(i);
            }
            i += 1;
        }
        None
    }

    /// How much of a quantity is in use.
    pub fn used(&self, name: CounterName) -> (count: usize)
        ensures
            count == self@[name],
    {
        match self.place(name) {
            Some(at) => self.entries[at].1,
            None => 0,
        }
    }

    fn set(&mut self, name: CounterName, count: usize)
        ensures
            final(self)@ == old(self)@.insert(name, count),
    {
        let ghost before = *self;
        let at = self.place(name);
        proof {
            use_type_invariant(&*self);
        }
        let mut entries: Vec<(CounterName, usize)> = Vec::new();
        std::mem::swap(&mut entries, &mut self.entries);
        let ghost start = entries@;
        match at {
            Some(i) => {
                if count == 0 {
                    entries.remove(i);
                    proof {
                        assert forall|n: CounterName| true implies #[trigger] Self::counts(entries@)[n] == before@.insert(name, count)[n] by {
                            if n == name {
                                if exists|j: int| 0 <= j < entries@.len() && (#[trigger] entries@[j]).0 == n {
                                    let j = choose|j: int| 0 <= j < entries@.len() && (#[trigger] entries@[j]).0 == n;
                                    let k = if j < i { j } else { j + 1 };
                                    assert(entries@[j] == start[k]);
                                    assert(start[i as int].0 == name);
                                }
                            } else if exists|j: int| 0 <= j < start.len() && (#[trigger] start[j]).0 == n {
                                let j = choose|j: int| 0 <= j < start.len() && (#[trigger] start[j]).0 == n;
                                let k = if j < i { j } else { j - 1 };
                                assert(entries@[k] == start[j]);
                                Self::count_found(start, j);
                                Self::count_found(entries@, k);
                            } else if exists|j: int| 0 <= j < entries@.len() && (#[trigger] entries@[j]).0 == n {
                                let j = choose|j: int| 0 <= j < entries@.len() && (#[trigger] entries@[j]).0 == n;
                                let k = if j < i { j } else { j + 1 };
                                assert(entries@[j] == start[k]);
                            }
                        }
                    }
                } else {
                    entries.set(i, (name, count));
                    proof {
                        assert forall|n: CounterName| true implies #[trigger] Self::counts(entries@)[n] == before@.insert(name, count)[n] by {
                            if n == name {
                                Self::count_found(entries@, i as int);
                            } else if exists|j: int| 0 <= j < start.len() && (#[trigger] start[j]).0 == n {
                                let j = choose|j: int| 0 <= j < start.len() && (#[trigger] start[j]).0 == n;
                                assert(entries@[j] == start[j]);
                                Self::count_found(start, j);
                                Self::count_found(entries@, j);
                            } else if exists|j: int| 0 <= j < entries@.len() && (#[trigger] entries@[j]).0 == n {
                                let j = choose|j: int| 0 <= j < entries@.len() && (#[trigger] entries@[j]).0 == n;
                                assert(entries@[j] == start[j]);
                            }
                        }
                    }
                }
            },
            None => {
                if count != 0 {
                    entries.push((name, count));
                }
                proof {
                    assert forall|n: CounterName| true implies #[trigger] Self::counts(entries@)[n] == before@.insert(name, count)[n] by {
                        if n == name {
                            if count != 0 {
                                Self::count_found(entries@, start.len() as int);
                            }
                        } else if exists|j: int| 0 <= j < start.len() && (#[trigger] start[j]).0 == n {
                            let j = choose|j: int| 0 <= j < start.len() && (#[trigger] start[j]).0 == n;
                            assert(entries@[j] == start[j]);
                            Self::count_found(start, j);
                            Self::count_found(entries@, j);
                        } else if exists|j: int| 0 <= j < entries@.len() && (#[trigger] entries@[j]).0 == n {
                            let j = choose|j: int| 0 <= j < entries@.len() && (#[trigger] entries@[j]).0 == n;
                            assert(entries@[j] == start[j]);
                        }
                    }
                }
            },
        }
        assert(Self::counts(entries@) =~= before@.insert(name, count));
        self.entries = entries;
    }

    /// Reserves a quantity if it stays within its limit.
    pub fn try_reserve(&mut self, name: CounterName, count: usize, limit: usize) -> (taken: bool)
        ensures
            taken == fits(old(self)@, name, count, limit),
            final(self)@ == if taken { reserved(old(self)@, name, count) } else { old(self)@ },
    {
        let used = self.used(name);
        if count <= limit && used <= limit - count {
            self.set(name, used + count);
            true
        } else {
            false
        }
    }

    /// Gives a quantity back.
    pub fn release(&mut self, name: CounterName, count: usize)
        ensures
            final(self)@ == released(old(self)@, name, count),
    {
        let used = self.used(name);
        self.set(name, used.saturating_sub(count));
    }
}

/// A place among a bounded number of places.
#[derive(Debug, PartialEq, Eq, Structural)]
pub struct CapacityPermit {
    pub primary: CounterName,
    pub secondary: Option<CounterName>,
}

pub open spec fn permit_released(ledger: LedgerView, permit: CapacityPermit) -> LedgerView {
    let ledger = released(ledger, permit.primary, 1);
    match permit.secondary {
        Some(name) => released(ledger, name, 1),
        None => ledger,
    }
}

impl CapacityPermit {
    /// Takes one place of `counter` if there is one.
    pub fn try_acquire(ledger: &mut Ledger, counter: CounterName, limit: usize) -> (permit: Option<CapacityPermit>)
        ensures
            permit is Some == fits(old(ledger)@, counter, 1, limit),
            permit matches Some(taken) ==> taken == (CapacityPermit { primary: counter, secondary: None }),
            final(ledger)@ == if permit is Some { reserved(old(ledger)@, counter, 1) } else { old(ledger)@ },
    {
        if ledger.try_reserve(counter, 1, limit) {
            Some(CapacityPermit { primary: counter, secondary: None })
        } else {
            None
        }
    }

    /// Takes one place of two counters, or of neither.
    pub fn try_acquire_pair(
        ledger: &mut Ledger,
        primary: CounterName,
        primary_limit: usize,
        secondary: CounterName,
        secondary_limit: usize,
    ) -> (permit: Option<CapacityPermit>)
        requires
            primary != secondary,
        ensures
            permit is Some == (fits(old(ledger)@, primary, 1, primary_limit) && fits(old(ledger)@, secondary, 1, secondary_limit)),
            permit matches Some(taken) ==> taken == (CapacityPermit { primary, secondary: Some(secondary) }),
            final(ledger)@ == if permit is Some {
                reserved(reserved(old(ledger)@, primary, 1), secondary, 1)
            } else {
                old(ledger)@
            },
    {
        let ghost before = ledger@;
        if !ledger.try_reserve(primary, 1, primary_limit) {
            return None;
        }
        if !ledger.try_reserve(secondary, 1, secondary_limit) {
            ledger.release(primary, 1);
            proof {
                ledger_is_total(ledger);
                assert(ledger@ =~= before);
            }
            return None;
        }
        Some(CapacityPermit { primary, secondary: Some(secondary) })
    }

    /// Gives the place back.
    pub fn release(self, ledger: &mut Ledger)
        ensures
            final(ledger)@ == permit_released(old(ledger)@, self),
    {
        ledger.release(self.primary, 1);
        match self.secondary {
            Some(name) => {
                ledger.release(name, 1);
            },
            None => {},
        }
    }
}

/// A ledger knows every quantity.
pub proof fn ledger_is_total(ledger: &Ledger)
    ensures
        complete(ledger@),
{
    assert(ledger@.dom() =~= Set::<CounterName>::full());
}

/// A serialized frame on its way to a client, with the bytes it occupies.
#[derive(Debug, PartialEq, Eq)]
pub struct OutboundFrame {
    pub bytes: Vec<u8>,
    pub connection: ConnectionId,
    pub writer_slot: Option<CapacityPermit>,
}

pub struct OutboundView {
    pub bytes: Seq<u8>,
    pub connection: ConnectionId,
    pub writer_slot: Option<CapacityPermit>,
}

impl View for OutboundFrame {
    type V = OutboundView;

    open spec fn view(&self) -> OutboundView {
        OutboundView { bytes: self.bytes@, connection: self.connection, writer_slot: self.writer_slot }
    }
}

pub open spec fn outbound_fits(ledger: LedgerView, connection: ConnectionId, count: usize, limits: Limits) -> bool {
    &&& fits(ledger, CounterName::WriterBytes(connection), count, limits.egress_bytes)
    &&& fits(ledger, CounterName::GlobalWriterBytes, count, limits.global_egress_bytes)
}

pub open spec fn outbound_reserved(ledger: LedgerView, connection: ConnectionId, count: usize) -> LedgerView {
    reserved(reserved(ledger, CounterName::WriterBytes(connection), count), CounterName::GlobalWriterBytes, count)
}

pub open spec fn outbound_bytes_released(ledger: LedgerView, connection: ConnectionId, count: usize) -> LedgerView {
    released(released(ledger, CounterName::WriterBytes(connection), count), CounterName::GlobalWriterBytes, count)
}

pub open spec fn slot_released(ledger: LedgerView, slot: Option<CapacityPermit>) -> LedgerView {
    match slot {
        Some(permit) => permit_released(ledger, permit),
        None => ledger,
    }
}

/// Everything that a frame holds is given back.
pub open spec fn outbound_released(ledger: LedgerView, frame: OutboundView) -> LedgerView {
    outbound_bytes_released(slot_released(ledger, frame.writer_slot), frame.connection, frame.bytes.len() as usize)
}

/// Reserves the bytes of a frame for its connection and overall, or neither.
pub fn reserve_outbound(bytes: Vec<u8>, ledger: &mut Ledger, connection: ConnectionId, limits: Limits) -> (frame: Option<OutboundFrame>)
    ensures
        frame is Some == outbound_fits(old(ledger)@, connection, bytes@.len() as usize, limits),
        frame matches Some(outbound) ==> outbound@ == (OutboundView { bytes: bytes@, connection, writer_slot: None }),
        final(ledger)@ == if frame is Some {
            outbound_reserved(old(ledger)@, connection, bytes@.len() as usize)
        } else {
            old(ledger)@
        },
{
    let ghost before = ledger@;
    let count: usize = bytes.len();
    if !ledger.try_reserve(CounterName::WriterBytes(connection), count, limits.egress_bytes) {
        return None;
    }
    if !ledger.try_reserve(CounterName::GlobalWriterBytes, count, limits.global_egress_bytes) {
        ledger.release(CounterName::WriterBytes(connection), count);
        proof {
            ledger_is_total(ledger);
            assert(ledger@ =~= before);
        }
        return None;
    }
    Some(OutboundFrame { bytes, connection, writer_slot: None })
}

impl OutboundFrame {
    /// Takes a place in the writer's queue, in exchange for any that the frame
    /// has; without one the frame is given up with all that it holds.
    pub fn reserve_writer_slot(self, ledger: &mut Ledger, limit: usize) -> (frame: Option<OutboundFrame>)
        ensures
            frame is Some == fits(old(ledger)@, CounterName::WriterFrames(self.connection), 1, limit),
            frame matches Some(outbound) ==> outbound@ == (OutboundView {
                writer_slot: Some(CapacityPermit { primary: CounterName::WriterFrames(self.connection), secondary: None }),
                ..self@
            }),
            final(ledger)@ == if frame is Some {
                slot_released(reserved(old(ledger)@, CounterName::WriterFrames(self.connection), 1), self.writer_slot)
            } else {
                outbound_released(old(ledger)@, self@)
            },
    {
        match CapacityPermit::try_acquire(ledger, CounterName::WriterFrames(self.connection), limit) {
            Some(permit) => {
                match self.writer_slot {
                    Some(earlier) => {
                        earlier.release(ledger);
                    },
                    None => {},
                }
                Some(OutboundFrame { bytes: self.bytes, connection: self.connection, writer_slot: Some(permit) })
            },
            None => {
                self.release(ledger);
                None
            },
        }
    }

    /// Gives the place in the queue back: the writer has taken the frame out.
    pub fn begin_write(&mut self, ledger: &mut Ledger)
        ensures
            final(self)@ == (OutboundView { writer_slot: None, ..old(self)@ }),
            final(ledger)@ == slot_released(old(ledger)@, old(self).writer_slot),
    {
        match self.writer_slot.take() {
            Some(permit) => {
                permit.release(ledger);
            },
            None => {},
        }
    }

    /// Gives back everything that the frame holds.
    pub fn release(self, ledger: &mut Ledger)
        ensures
            final(ledger)@ == outbound_released(old(ledger)@, self@),
    {
        let count: usize = self.bytes.len();
        let connection: ConnectionId = self.connection;
        match self.writer_slot {
            Some(permit) => {
                permit.release(ledger);
            },
            None => {},
        }
        ledger.release(CounterName::WriterBytes(connection), count);
        ledger.release(CounterName::GlobalWriterBytes, count);
    }
}

/// The bytes of a terminal frame: owed whatever the egress limits say, or
/// counted against them.
#[derive(Debug, PartialEq, Eq)]
pub enum TerminalBytes {
    Required(Vec<u8>),
    Accounted(OutboundFrame),
}

/// The last frame of a request or subscription.
#[derive(Debug, PartialEq, Eq)]
pub struct TerminalFrame {
    pub bytes: TerminalBytes,
    pub capacity: CapacityPermit,
    pub required_deliveries: Option<ConnectionId>,
}

pub struct TerminalView {
    pub bytes: Seq<u8>,
    pub accounted: Option<OutboundView>,
    pub capacity: CapacityPermit,
    pub required_deliveries: Option<ConnectionId>,
}

impl View for TerminalFrame {
    type V = TerminalView;

    open spec fn view(&self) -> TerminalView {
        TerminalView {
            bytes: match self.bytes {
                TerminalBytes::Required(bytes) => bytes@,
                TerminalBytes::Accounted(frame) => frame.bytes@,
            },
            accounted: match self.bytes {
                TerminalBytes::Required(_) => None,
                TerminalBytes::Accounted(frame) => Some(frame@),
            },
            capacity: self.capacity,
            required_deliveries: self.required_deliveries,
        }
    }
}

/// One more delivery is owed to a connection.
pub open spec fn delivery_owed(ledger: LedgerView, connection: ConnectionId) -> LedgerView {
    if fits(ledger, CounterName::RequiredDeliveries(connection), 1, usize::MAX) {
        reserved(ledger, CounterName::RequiredDeliveries(connection), 1)
    } else {
        ledger
    }
}

pub open spec fn terminal_released(ledger: LedgerView, frame: TerminalView) -> LedgerView {
    let ledger = match frame.accounted {
        Some(outbound) => outbound_released(ledger, outbound),
        None => ledger,
    };
    let ledger = permit_released(ledger, frame.capacity);
    match frame.required_deliveries {
        Some(connection) => released(ledger, CounterName::RequiredDeliveries(connection), 1),
        None => ledger,
    }
}

impl TerminalFrame {
    /// A frame that is owed to its connection.
    pub fn new(bytes: Vec<u8>, capacity: CapacityPermit, ledger: &mut Ledger, connection: ConnectionId) -> (frame: TerminalFrame)
        ensures
            frame@ == (TerminalView { bytes: bytes@, accounted: None, capacity, required_deliveries: Some(connection) }),
            final(ledger)@ == delivery_owed(old(ledger)@, connection),
    {
        Self::with_bytes(TerminalBytes::Required(bytes), capacity, ledger, connection)
    }

    /// A frame whose bytes count against the egress limits.
    pub fn from_outbound(frame: OutboundFrame, capacity: CapacityPermit) -> (terminal: TerminalFrame)
        ensures
            terminal@ == (TerminalView {
                bytes: frame.bytes@,
                accounted: Some(frame@),
                capacity,
                required_deliveries: None,
            }),
    {
        TerminalFrame { bytes: TerminalBytes::Accounted(frame), capacity, required_deliveries: None }
    }

    fn with_bytes(bytes: TerminalBytes, capacity: CapacityPermit, ledger: &mut Ledger, connection: ConnectionId) -> (frame: TerminalFrame)
        ensures
            frame == (TerminalFrame { bytes, capacity, required_deliveries: Some(connection) }),
            final(ledger)@ == delivery_owed(old(ledger)@, connection),
    {
        let _ = ledger.try_reserve(CounterName::RequiredDeliveries(connection), 1, usize::MAX);
        TerminalFrame { bytes, capacity, required_deliveries: Some(connection) }
    }

    pub fn bytes(&self) -> (bytes: &Vec<u8>)
        ensures
            bytes@ == self@.bytes,
    {
        match &self.bytes {
            TerminalBytes::Required(bytes) => bytes,
            TerminalBytes::Accounted(frame) => &frame.bytes,
        }
    }

    /// Gives back everything that the frame holds.
    pub fn release(self, ledger: &mut Ledger)
        ensures
            final(ledger)@ == terminal_released(old(ledger)@, self@),
    {
        match self.bytes {
            TerminalBytes::Required(_) => {},
            TerminalBytes::Accounted(frame) => {
                frame.release(ledger);
            },
        }
        self.capacity.release(ledger);
        match self.required_deliveries {
            Some(connection) => {
                ledger.release(CounterName::RequiredDeliveries(connection), 1);
            },
            None => {},
        }
    }
}

/// What is handed to the writer of a connection.
#[derive(Debug, PartialEq, Eq)]
pub enum WriterMessage {
    Frame(OutboundFrame),
    Terminal(TerminalFrame),
    Close,
}

pub enum WriterMessageView {
    Frame(OutboundView),
    Terminal(TerminalView),
    Close,
}

impl View for WriterMessage {
    type V = WriterMessageView;

    open spec fn view(&self) -> WriterMessageView {
        match self {
            WriterMessage::Frame(frame) => WriterMessageView::Frame(frame@),
            WriterMessage::Terminal(frame) => WriterMessageView::Terminal(frame@),
            WriterMessage::Close => WriterMessageView::Close,
        }
    }
}

/// A ledger that knows every quantity.
pub open spec fn complete(ledger: LedgerView) -> bool {
    ledger.dom() == Set::<CounterName>::full()
}

/// Nothing in use exceeds its limit.
pub open spec fn within_limits(ledger: LedgerView, limits: Limits) -> bool {
    &&& ledger[CounterName::GlobalWriterBytes] <= limits.global_egress_bytes
    &&& ledger[CounterName::GlobalSubscriptions] <= limits.global_subscriptions
    &&& ledger[CounterName::Waiters] <= limits.cold_waiters
    &&& forall|c: ConnectionId| #[trigger] ledger[CounterName::WriterBytes(c)] <= limits.egress_bytes
    &&& forall|c: ConnectionId| #[trigger] ledger[CounterName::WriterFrames(c)] <= limits.egress_frames
    &&& forall|c: ConnectionId| #[trigger] ledger[CounterName::ConnectionSubscriptions(c)] <= limits.connection_subscriptions
}

/// What is reserved and given back leaves the ledger as it was.
pub proof fn reservations_are_undone(ledger: LedgerView, name: CounterName, count: usize)
    requires
        complete(ledger),
        ledger[name] + count <= usize::MAX,
    ensures
        released(reserved(ledger, name, count), name, count) == ledger,
{
    assert(released(reserved(ledger, name, count), name, count) =~= ledger);
}

/// Bytes that are reserved and given back leave the ledger as it was.
pub proof fn reserved_bytes_are_undone(ledger: LedgerView, connection: ConnectionId, count: usize)
    requires
        complete(ledger),
        ledger[CounterName::WriterBytes(connection)] + count <= usize::MAX,
        ledger[CounterName::GlobalWriterBytes] + count <= usize::MAX,
    ensures
        outbound_bytes_released(outbound_reserved(ledger, connection, count), connection, count) == ledger,
{
    assert(outbound_bytes_released(outbound_reserved(ledger, connection, count), connection, count) =~= ledger);
}

/// A frame that is reserved, queued, written and dropped leaves the ledger as
/// it was.
pub proof fn a_written_frame_frees_what_it_held(ledger: LedgerView, connection: ConnectionId, bytes: Seq<u8>, limits: Limits)
    requires
        complete(ledger),
        bytes.len() <= usize::MAX,
        outbound_fits(ledger, connection, bytes.len() as usize, limits),
        fits(ledger, CounterName::WriterFrames(connection), 1, limits.egress_frames),
    ensures
        outbound_released(
            reserved(
                outbound_reserved(ledger, connection, bytes.len() as usize),
                CounterName::WriterFrames(connection),
                1,
            ),
            OutboundView {
                bytes,
                connection,
                writer_slot: Some(CapacityPermit { primary: CounterName::WriterFrames(connection), secondary: None }),
            },
        ) == ledger,
{
    assert(outbound_released(
        reserved(
            outbound_reserved(ledger, connection, bytes.len() as usize),
            CounterName::WriterFrames(connection),
            1,
        ),
        OutboundView {
            bytes,
            connection,
            writer_slot: Some(CapacityPermit { primary: CounterName::WriterFrames(connection), secondary: None }),
        },
    ) =~= ledger);
}

/// No reservation that is granted takes a quantity over its limit, and giving
/// back never does.
pub proof fn accounting_stays_within_limits(ledger: LedgerView, limits: Limits, connection: ConnectionId, count: usize, name: CounterName)
    requires
        complete(ledger),
        within_limits(ledger, limits),
    ensures
        outbound_fits(ledger, connection, count, limits) ==> within_limits(outbound_reserved(ledger, connection, count), limits),
        fits(ledger, CounterName::WriterFrames(connection), 1, limits.egress_frames) ==> within_limits(
            reserved(ledger, CounterName::WriterFrames(connection), 1),
            limits,
        ),
        fits(ledger, CounterName::Waiters, 1, limits.cold_waiters) ==> within_limits(
            reserved(ledger, CounterName::Waiters, 1),
            limits,
        ),
        fits(ledger, CounterName::ConnectionSubscriptions(connection), 1, limits.connection_subscriptions) && fits(
            ledger,
            CounterName::GlobalSubscriptions,
            1,
            limits.global_subscriptions,
        ) ==> within_limits(
            reserved(
                reserved(ledger, CounterName::ConnectionSubscriptions(connection), 1),
                CounterName::GlobalSubscriptions,
                1,
            ),
            limits,
        ),
        within_limits(released(ledger, name, count), limits),
        within_limits(delivery_owed(ledger, connection), limits),
{
}

} // verus!
