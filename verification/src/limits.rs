//! The bounds that the daemon keeps on everything clients can make it hold.

use crate::parse::{parse_unsigned, split_at_each, split_at_first, split_pair, split_text, unsigned_value};
use crate::text::same_text;
use crate::views::views;
use vstd::prelude::*;

verus! {

/// The longest request id, in bytes, that is echoed for an oversized frame.
pub const RESPONSE_ID_BYTES: usize = 4096;

/// The most bytes that such an id takes in a serialized response.
pub const MAX_SERIALIZED_RESPONSE_ID_BYTES: usize = 24576;

const MEBIBYTE: usize = 1048576;

#[derive(Clone, Copy, Debug, PartialEq, Eq, Structural)]
pub struct Limits {
    pub connections: usize,
    pub frame_bytes: usize,
    pub ingress: usize,
    pub in_flight: usize,
    pub connection_ingress_bytes: usize,
    pub global_ingress_bytes: usize,
    pub cold_waiters: usize,
    pub egress_frames: usize,
    pub egress_bytes: usize,
    pub global_egress_bytes: usize,
    pub snapshot_bytes: usize,
    pub connection_subscriptions: usize,
    pub global_subscriptions: usize,
    pub accepts_per_turn: usize,
    pub active_snapshots: usize,
    pub cache_bytes: usize,
}

/// The limits that hold unless they are overridden.
pub open spec fn default_limits(frame_bytes: usize) -> Limits {
    Limits {
        connections: 64,
        frame_bytes,
        ingress: 256,
        in_flight: 32,
        connection_ingress_bytes: 33554432,
        global_ingress_bytes: 268435456,
        cold_waiters: 512,
        egress_frames: 64,
        egress_bytes: 33554432,
        global_egress_bytes: 268435456,
        snapshot_bytes: frame_bytes,
        connection_subscriptions: 64,
        global_subscriptions: 512,
        accepts_per_turn: 64,
        active_snapshots: 16,
        cache_bytes: 268435456,
    }
}

/// The limits after one limit has been given another value; a name that is no
/// limit changes nothing.
pub open spec fn with_limit(limits: Limits, name: Seq<char>, value: usize) -> Limits {
    if name == "connections"@ {
        Limits { connections: value, ..limits }
    } else if name == "frame_bytes"@ {
        Limits { frame_bytes: value, ..limits }
    } else if name == "ingress"@ {
        Limits { ingress: value, ..limits }
    } else if name == "in_flight"@ {
        Limits { in_flight: value, ..limits }
    } else if name == "cold_waiters"@ {
        Limits { cold_waiters: value, ..limits }
    } else if name == "connection_ingress_bytes"@ {
        Limits { connection_ingress_bytes: value, ..limits }
    } else if name == "global_ingress_bytes"@ {
        Limits { global_ingress_bytes: value, ..limits }
    } else if name == "egress_frames"@ {
        Limits { egress_frames: value, ..limits }
    } else if name == "egress_bytes"@ {
        Limits { egress_bytes: value, global_egress_bytes: value, ..limits }
    } else if name == "global_egress_bytes"@ {
        Limits { global_egress_bytes: value, ..limits }
    } else if name == "snapshot_bytes"@ {
        Limits { snapshot_bytes: value, ..limits }
    } else if name == "connection_subscriptions"@ {
        Limits { connection_subscriptions: value, ..limits }
    } else if name == "global_subscriptions"@ {
        Limits { global_subscriptions: value, ..limits }
    } else if name == "accepts_per_turn"@ {
        Limits { accepts_per_turn: value, ..limits }
    } else if name == "active_snapshots"@ {
        Limits { active_snapshots: value, ..limits }
    } else if name == "cache_bytes"@ {
        Limits { cache_bytes: value, ..limits }
    } else {
        limits
    }
}

/// The limits after one `name=value` item; an item that is no such pair, or
/// whose value is no positive number, changes nothing.
pub open spec fn with_item(limits: Limits, item: Seq<char>) -> Limits {
    match split_pair(item, '=') {
        Some((name, value)) => match unsigned_value(value, usize::MAX as nat) {
            Some(number) => if number == 0 {
                limits
            } else {
                with_limit(limits, name, number as usize)
            },
            None => limits,
        },
        None => limits,
    }
}

/// The limits after every item of a list, in order.
pub open spec fn with_items(limits: Limits, items: Seq<Seq<char>>) -> Limits
    decreases items.len(),
{
    if items.len() == 0 {
        limits
    } else {
        with_item(with_items(limits, items.drop_last()), items.last())
    }
}

impl Limits {
    /// What one connection's queue can come to hold: frames, answers to waiting
    /// requests, and ends of its subscriptions.
    pub open spec fn queue_places(self) -> int {
        self.egress_frames + self.cold_waiters + self.connection_subscriptions
    }

    /// The places of a connection's queue: one more than that, for the close,
    /// or as many as there can be.
    pub open spec fn writer_places(self) -> int {
        if self.queue_places() < usize::MAX {
            self.queue_places() + 1
        } else {
            usize::MAX as int
        }
    }

    /// How many messages the queue of a connection must have room for.
    pub fn writer_capacity(&self) -> (places: usize)
        ensures
            places == self.writer_places(),
    {
        self.egress_frames.saturating_add(self.cold_waiters).saturating_add(self.connection_subscriptions).saturating_add(
            1,
        )
    }

    /// The limits for a frame size, with the overrides of a comma-separated
    /// list of `name=value` items.
    pub fn new(frame_bytes: usize, overrides: Option<&str>) -> (limits: Limits)
        ensures
            limits == match overrides {
                Some(encoded) => with_items(default_limits(frame_bytes), split_text(encoded@, ',')),
                None => default_limits(frame_bytes),
            },
    {
        let mut limits = Limits {
            connections: 64,
            frame_bytes,
            ingress: 256,
            in_flight: 32,
            connection_ingress_bytes: 32 * MEBIBYTE,
            global_ingress_bytes: 256 * MEBIBYTE,
            cold_waiters: 512,
            egress_frames: 64,
            egress_bytes: 32 * MEBIBYTE,
            global_egress_bytes: 256 * MEBIBYTE,
            snapshot_bytes: frame_bytes,
            connection_subscriptions: 64,
            global_subscriptions: 512,
            accepts_per_turn: 64,
            active_snapshots: 16,
            cache_bytes: 256 * MEBIBYTE,
        };
        match overrides {
            Some(encoded) => {
                limits.apply_overrides(encoded);
            },
            None => {},
        }
        limits
    }

    /// Applies a comma-separated list of `name=value` items.
    pub fn apply_overrides(&mut self, encoded: &str)
        ensures
            *final(self) == with_items(*old(self), split_text(encoded@, ',')),
    {
        let items = split_at_each(encoded, ',');
        let ghost before = *self;
        let mut i: usize = 0;
        assert(views(items@).take(0) =~= Seq::<Seq<char>>::empty());
        while i < items.len()
            invariant
                i <= items@.len(),
                *self == with_items(before, views(items@).take(i as int)),
            decreases items@.len() - i,
        {
            proof {
                assert(views(items@).take(i + 1).drop_last() =~= views(items@).take(i as int));
                assert(views(items@).take(i + 1).last() == items@[i as int]@);
            }
            match split_at_first(items[i].as_str(), '=') {
                Some((name, value)) => match parse_unsigned(value.as_str(), usize::MAX as u64) {
                    Some(number) => {
                        if number != 0 {
                            self.set_limit(name.as_str(), number as usize);
                        }
                    },
                    None => {},
                },
                None => {},
            }
            i += 1;
        }
        assert(views(items@).take(i as int) =~= views(items@));
    }

    fn set_limit(&mut self, name: &str, value: usize)
        ensures
            *final(self) == with_limit(*old(self), name@, value),
    {
        if same_text(name, "connections") {
            self.connections = value;
        } else if same_text(name, "frame_bytes") {
            self.frame_bytes = value;
        } else if same_text(name, "ingress") {
            self.ingress = value;
        } else if same_text(name, "in_flight") {
            self.in_flight = value;
        } else if same_text(name, "cold_waiters") {
            self.cold_waiters = value;
        } else if same_text(name, "connection_ingress_bytes") {
            self.connection_ingress_bytes = value;
        } else if same_text(name, "global_ingress_bytes") {
            self.global_ingress_bytes = value;
        } else if same_text(name, "egress_frames") {
            self.egress_frames = value;
        } else if same_text(name, "egress_bytes") {
            self.egress_bytes = value;
            self.global_egress_bytes = value;
        } else if same_text(name, "global_egress_bytes") {
            self.global_egress_bytes = value;
        } else if same_text(name, "snapshot_bytes") {
            self.snapshot_bytes = value;
        } else if same_text(name, "connection_subscriptions") {
            self.connection_subscriptions = value;
        } else if same_text(name, "global_subscriptions") {
            self.global_subscriptions = value;
        } else if same_text(name, "accepts_per_turn") {
            self.accepts_per_turn = value;
        } else if same_text(name, "active_snapshots") {
            self.active_snapshots = value;
        } else if same_text(name, "cache_bytes") {
            self.cache_bytes = value;
        }
    }
}

/// Every limit is positive.
pub open spec fn all_positive(limits: Limits) -> bool {
    &&& limits.connections > 0
    &&& limits.frame_bytes > 0
    &&& limits.ingress > 0
    &&& limits.in_flight > 0
    &&& limits.connection_ingress_bytes > 0
    &&& limits.global_ingress_bytes > 0
    &&& limits.cold_waiters > 0
    &&& limits.egress_frames > 0
    &&& limits.egress_bytes > 0
    &&& limits.global_egress_bytes > 0
    &&& limits.snapshot_bytes > 0
    &&& limits.connection_subscriptions > 0
    &&& limits.global_subscriptions > 0
    &&& limits.accepts_per_turn > 0
    &&& limits.active_snapshots > 0
    &&& limits.cache_bytes > 0
}

/// No override can switch a limit off.
pub proof fn overrides_keep_limits_positive(limits: Limits, items: Seq<Seq<char>>)
    requires
        all_positive(limits),
    ensures
        all_positive(with_items(limits, items)),
    decreases items.len(),
{
    if items.len() > 0 {
        overrides_keep_limits_positive(limits, items.drop_last());
    }
}

} // verus!
