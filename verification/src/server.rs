//! The daemon: its state, and what it does about every event.

pub mod accounts;
pub mod announcements;
pub mod answers;
pub mod arrivals;
pub mod attendance;
pub mod caches;
pub mod client;
pub mod conversation;
pub mod endings;
pub mod events;
pub mod farewells;
pub mod following;
pub mod lists;
pub mod membership;
pub mod model;
pub mod outcomes;
pub mod registry_watch;
pub mod replacement;
pub mod replies;
pub mod rescans;
pub mod request;
pub mod runs;
pub mod selection;
pub mod serving;
pub mod snapshots;
pub mod soundness;
pub mod subscribing;
pub mod takeover;
pub mod turn;
pub mod unchanged;
pub mod watching;

use crate::limits::Limits;
use crate::ordered::TextMap;
use crate::project::ProjectRecord;
use crate::protocol::Ledger;
use crate::server::model::{Connection, Effect, ServerView, SnapshotRun, Subscription, Waiter};
use crate::state::{CacheView, DirtyTracker, ProjectCache};
use crate::time::Duration;
use crate::views::{views, views_push};
use vstd::prelude::*;

verus! {

/// The daemon's state.
pub struct Server {
    pub limits: Limits,
    pub server_version: String,
    pub registry: String,
    pub projects: Vec<ProjectRecord>,
    pub caches: TextMap<ProjectCache>,
    pub generations: TextMap<u64>,
    pub dirty: DirtyTracker,
    pub connections: Vec<Connection>,
    pub subscriptions: Vec<Subscription>,
    pub waiters: Vec<Waiter>,
    pub active: Vec<SnapshotRun>,
    pub deferred: Vec<String>,
    pub retained_cache_bytes: usize,
    pub pending_watches: Vec<String>,
    pub watch_retry_due: Option<Duration>,
    pub registry_due: Option<Duration>,
    pub registry_poll_due: Duration,
    pub next_connection: u64,
    pub next_subscription: u64,
    pub next_generation: u64,
    pub ledger: Ledger,
    pub effects: Vec<Effect>,
}

/// The views of the caches of a map.
pub open spec fn cache_views(caches: Map<Seq<char>, ProjectCache>) -> Map<Seq<char>, CacheView> {
    Map::new(|id: Seq<char>| caches.dom().contains(id), |id: Seq<char>| caches[id]@)
}

pub proof fn cache_views_insert(caches: Map<Seq<char>, ProjectCache>, id: Seq<char>, cache: ProjectCache)
    ensures
        cache_views(caches.insert(id, cache)) == cache_views(caches).insert(id, cache@),
{
    assert(cache_views(caches.insert(id, cache)) =~= cache_views(caches).insert(id, cache@));
}

pub proof fn cache_views_remove(caches: Map<Seq<char>, ProjectCache>, id: Seq<char>)
    ensures
        cache_views(caches.remove(id)) == cache_views(caches).remove(id),
{
    assert(cache_views(caches.remove(id)) =~= cache_views(caches).remove(id));
}

impl View for Server {
    type V = ServerView;

    open spec fn view(&self) -> ServerView {
        ServerView {
            limits: self.limits,
            server_version: self.server_version@,
            registry: self.registry@,
            projects: views(self.projects@),
            caches: cache_views(self.caches@),
            generations: self.generations@,
            dirty: self.dirty@,
            connections: self.connections@,
            subscriptions: views(self.subscriptions@),
            waiters: views(self.waiters@),
            active: views(self.active@),
            deferred: views(self.deferred@),
            retained_cache_bytes: self.retained_cache_bytes,
            pending_watches: views(self.pending_watches@),
            watch_retry_due: self.watch_retry_due,
            registry_due: self.registry_due,
            registry_poll_due: self.registry_poll_due,
            next_connection: self.next_connection,
            next_subscription: self.next_subscription,
            next_generation: self.next_generation,
            ledger: self.ledger@,
            effects: views(self.effects@),
        }
    }
}

impl Server {
    /// Notes something to be done outside.
    pub(crate) fn push_effect(&mut self, effect: Effect)
        ensures
            final(self)@ == old(self)@.with_effect(effect@),
    {
        proof {
            views_push(self.effects@, effect);
        }
        self.effects.push(effect);
    }

    /// Takes what is to be done outside.
    pub fn take_effects(&mut self) -> (effects: Vec<Effect>)
        ensures
            views(effects@) == old(self)@.effects,
            final(self)@ == (ServerView { effects: Seq::empty(), ..old(self)@ }),
    {
        let mut effects: Vec<Effect> = Vec::new();
        std::mem::swap(&mut effects, &mut self.effects);
        assert(views(self.effects@) =~= Seq::empty());
        effects
    }
}

} // verus!
