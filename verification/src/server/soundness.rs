//! What holds of the daemon from its first moment on.

use crate::limits::Limits;
use crate::project::RecordView;
use crate::protocol::{empty_ledger, CounterName, WriterMessageView};
use crate::server::accounts::{accounted, addressed, all_addressed, counted, elsewhere, events_keep_the_accounts, in_limits, limit_for,
    messages_hold};
use crate::server::caches::{caches_accounted, events_keep_caches_accounted, retained_total};
use crate::server::events::EventView;
use crate::server::following::{no_subscription_is_forgotten, subscriptions_sound};
use crate::server::membership::{clients_sound, events_keep_clients_sound};
use crate::server::model::ServerView;
use crate::server::runs::{events_keep_runs_in_bounds, runs_in_bounds};
use crate::server::turn::{first_caches, new_server};
use crate::state::CacheView;
use crate::time::Duration;
use vstd::prelude::*;

verus! {

/// Everything that always holds: runs are bounded and never double, retained
/// snapshots are counted and bounded, every subscription and waiting request
/// has an open connection, no subscription shares its id or is forgotten,
/// every place, byte and owed frame of the ledger is held once and within its
/// limit by something that is for its connection, and no more connections are
/// open than allowed.
pub open spec fn sound(view: ServerView, writing: Seq<WriterMessageView>) -> bool {
    &&& runs_in_bounds(view)
    &&& caches_accounted(view)
    &&& clients_sound(view)
    &&& subscriptions_sound(view)
    &&& accounted(view, writing)
    &&& in_limits(view)
    &&& addressed(view.effects)
    &&& all_addressed(writing)
    &&& view.connections.len() <= view.limits.connections
}

proof fn first_caches_are_empty(projects: Seq<RecordView>)
    ensures
        first_caches(projects).dom().finite(),
        retained_total(first_caches(projects)) == 0,
        forall|i: int| 0 <= i < projects.len() ==> first_caches(projects).dom().contains((#[trigger] projects[i]).id),
        forall|id: Seq<char>| #[trigger] first_caches(projects).dom().contains(id) ==> first_caches(projects)[id].retained_bytes == 0,
    decreases projects.len(),
{
    if projects.len() > 0 {
        first_caches_are_empty(projects.drop_last());
        assert forall|i: int| 0 <= i < projects.len() implies first_caches(projects).dom().contains((#[trigger] projects[i]).id) by {
            if i < projects.len() - 1 {
                assert(projects.drop_last()[i] == projects[i]);
            }
        }
        empty_caches_hold_nothing(first_caches(projects));
    }
}

proof fn empty_caches_hold_nothing(caches: Map<Seq<char>, CacheView>)
    requires
        caches.dom().finite(),
        forall|id: Seq<char>| #[trigger] caches.dom().contains(id) ==> caches[id].retained_bytes == 0,
    ensures
        retained_total(caches) == 0,
    decreases caches.dom().len(),
{
    if caches.dom().len() > 0 {
        let id = caches.dom().choose();
        assert(caches.dom().contains(id));
        assert forall|other: Seq<char>| #[trigger] caches.remove(id).dom().contains(other) implies caches.remove(id)[other].retained_bytes == 0 by {
            assert(caches.dom().contains(other));
        }
        empty_caches_hold_nothing(caches.remove(id));
    }
}

/// A daemon begins sound.
pub proof fn a_new_daemon_is_sound(limits: Limits, version: Seq<char>, registry: Seq<char>, projects: Seq<RecordView>, window: Duration)
    ensures
        sound(new_server(limits, version, registry, projects, window), Seq::empty()),
{
    let view = new_server(limits, version, registry, projects, window);
    first_caches_are_empty(projects);
    assert forall|name: CounterName| #[trigger] counted(view.limits, name) implies elsewhere(view, name) == messages_hold(Seq::empty(), name) by {
        assert(view.ledger[name] == 0);
    }
    assert forall|name: CounterName| #[trigger] view.ledger[name] <= limit_for(view.limits, name) by {
        assert(empty_ledger().dom().contains(name));
    }
}

/// What the laws about parts of the daemon need and keep, one by one.
spec fn parts_sound(view: ServerView) -> bool {
    &&& runs_in_bounds(view)
    &&& caches_accounted(view)
    &&& clients_sound(view)
    &&& subscriptions_sound(view)
}

proof fn events_keep_the_parts_sound(view: ServerView, event: EventView, now: Duration)
    requires
        parts_sound(view),
        view.allows(event),
    ensures
        parts_sound(view.after(event, now)),
{
    assert(runs_in_bounds(view.after(event, now))) by {
        events_keep_runs_in_bounds(view, event, now);
    }
    assert(caches_accounted(view.after(event, now))) by {
        events_keep_caches_accounted(view, event, now);
    }
    assert(clients_sound(view.after(event, now))) by {
        events_keep_clients_sound(view, event, now);
    }
    assert(subscriptions_sound(view.after(event, now))) by {
        no_subscription_is_forgotten(view, event, now);
    }
}

/// Whatever happens, the daemon stays sound.
pub proof fn events_keep_the_daemon_sound(view: ServerView, writing: Seq<WriterMessageView>, event: EventView, now: Duration)
    requires
        sound(view, writing),
        view.allows(event),
    ensures
        sound(view.after(event, now), writing),
{
    let next = view.after(event, now);
    assert(parts_sound(next)) by {
        events_keep_the_parts_sound(view, event, now);
    }
    events_keep_the_accounts(view, writing, event, now);
    assert(next.connections.len() <= next.limits.connections) by {
        if event is Admitted {
            assert(next == view.admitted());
        }
    }
}

} // verus!
