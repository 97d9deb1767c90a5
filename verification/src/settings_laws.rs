//! What the settings come to: limits, places and times.

use crate::config::{config_error_text, default_settings, resolved, ConfigErrorView, ConfigView};
use crate::limits::{default_limits, with_item, with_items, with_limit, Limits};
use crate::parse::{split_text};
use crate::path::{components, ComponentView};
use crate::path_laws::{joining_leads_below, splitting_takes_sides};
use crate::run_laws::is_made_of;
use crate::text::decimal_text;
use crate::text_laws::{numbers_read_back, pairs_part_at_the_first_separator};
use vstd::prelude::*;

verus! {

// ---------------------------------------------------------------------------
// Limits

/// The limits that hold unless they are overridden: those on frames and
/// snapshots follow the frame size, the others are fixed.
pub proof fn limits_have_their_defaults(frame_bytes: usize)
    ensures
        ({
            let limits = default_limits(frame_bytes);
            &&& limits.frame_bytes == frame_bytes
            &&& limits.snapshot_bytes == frame_bytes
            &&& limits.connections == 64
            &&& limits.ingress == 256
            &&& limits.in_flight == 32
            &&& limits.connection_ingress_bytes == 32 * 1024 * 1024
            &&& limits.global_ingress_bytes == 256 * 1024 * 1024
            &&& limits.cold_waiters == 512
            &&& limits.egress_frames == 64
            &&& limits.egress_bytes == 32 * 1024 * 1024
            &&& limits.global_egress_bytes == 256 * 1024 * 1024
            &&& limits.connection_subscriptions == 64
            &&& limits.global_subscriptions == 512
            &&& limits.accepts_per_turn == 64
            &&& limits.active_snapshots == 16
            &&& limits.cache_bytes == 256 * 1024 * 1024
        }),
{
}

/// Each name sets the limit of that name and no other; only the bound on a
/// connection's egress also sets the one on all egress. A name that is none
/// sets nothing.
pub proof fn every_name_sets_its_own_limit(limits: Limits, name: Seq<char>, value: usize)
    ensures
        with_limit(limits, "connections"@, value) == (Limits { connections: value, ..limits }),
        with_limit(limits, "frame_bytes"@, value) == (Limits { frame_bytes: value, ..limits }),
        with_limit(limits, "ingress"@, value) == (Limits { ingress: value, ..limits }),
        with_limit(limits, "in_flight"@, value) == (Limits { in_flight: value, ..limits }),
        with_limit(limits, "cold_waiters"@, value) == (Limits { cold_waiters: value, ..limits }),
        with_limit(limits, "connection_ingress_bytes"@, value) == (Limits { connection_ingress_bytes: value, ..limits }),
        with_limit(limits, "global_ingress_bytes"@, value) == (Limits { global_ingress_bytes: value, ..limits }),
        with_limit(limits, "egress_frames"@, value) == (Limits { egress_frames: value, ..limits }),
        with_limit(limits, "egress_bytes"@, value) == (Limits { egress_bytes: value, global_egress_bytes: value, ..limits }),
        with_limit(limits, "global_egress_bytes"@, value) == (Limits { global_egress_bytes: value, ..limits }),
        with_limit(limits, "snapshot_bytes"@, value) == (Limits { snapshot_bytes: value, ..limits }),
        with_limit(limits, "connection_subscriptions"@, value) == (Limits { connection_subscriptions: value, ..limits }),
        with_limit(limits, "global_subscriptions"@, value) == (Limits { global_subscriptions: value, ..limits }),
        with_limit(limits, "accepts_per_turn"@, value) == (Limits { accepts_per_turn: value, ..limits }),
        with_limit(limits, "active_snapshots"@, value) == (Limits { active_snapshots: value, ..limits }),
        with_limit(limits, "cache_bytes"@, value) == (Limits { cache_bytes: value, ..limits }),
        name != "connections"@ && name != "frame_bytes"@ && name != "ingress"@ && name != "in_flight"@ && name != "cold_waiters"@ && name != "connection_ingress_bytes"@ && name != "global_ingress_bytes"@ && name != "egress_frames"@ && name != "egress_bytes"@ && name != "global_egress_bytes"@ && name != "snapshot_bytes"@ && name != "connection_subscriptions"@ && name != "global_subscriptions"@ && name != "accepts_per_turn"@ && name != "active_snapshots"@ && name != "cache_bytes"@ ==> with_limit(limits, name, value) == limits,
{
    reveal_strlit("connections");
    reveal_strlit("frame_bytes");
    reveal_strlit("ingress");
    reveal_strlit("in_flight");
    reveal_strlit("cold_waiters");
    reveal_strlit("connection_ingress_bytes");
    reveal_strlit("global_ingress_bytes");
    reveal_strlit("egress_frames");
    reveal_strlit("egress_bytes");
    reveal_strlit("global_egress_bytes");
    reveal_strlit("snapshot_bytes");
    reveal_strlit("connection_subscriptions");
    reveal_strlit("global_subscriptions");
    reveal_strlit("accepts_per_turn");
    reveal_strlit("active_snapshots");
    reveal_strlit("cache_bytes");
    assert("connections"@.len() == 11);
    assert("frame_bytes"@.len() == 11);
    assert("ingress"@.len() == 7);
    assert("in_flight"@.len() == 9);
    assert("cold_waiters"@.len() == 12);
    assert("connection_ingress_bytes"@.len() == 24);
    assert("global_ingress_bytes"@.len() == 20);
    assert("egress_frames"@.len() == 13);
    assert("egress_bytes"@.len() == 12);
    assert("global_egress_bytes"@.len() == 19);
    assert("snapshot_bytes"@.len() == 14);
    assert("connection_subscriptions"@.len() == 24);
    assert("global_subscriptions"@.len() == 20);
    assert("accepts_per_turn"@.len() == 16);
    assert("active_snapshots"@.len() == 16);
    assert("cache_bytes"@.len() == 11);
    assert("connections"@[0] != "frame_bytes"@[0]);
    assert("connections"@[1] != "cache_bytes"@[1]);
    assert("frame_bytes"@[0] != "cache_bytes"@[0]);
    assert("cold_waiters"@[0] != "egress_bytes"@[0]);
    assert("connection_ingress_bytes"@[11] != "connection_subscriptions"@[11]);
    assert("global_ingress_bytes"@[7] != "global_subscriptions"@[7]);
    assert("accepts_per_turn"@[2] != "active_snapshots"@[2]);
}

/// One override is a name, an equals sign and a number: it sets that limit to
/// that number, unless the number is zero.
pub proof fn overrides_set_what_they_say(limits: Limits, name: Seq<char>, number: nat)
    requires
        !name.contains('='),
    ensures
        0 < number <= usize::MAX ==> with_item(limits, name.push('=') + decimal_text(number)) == with_limit(
            limits,
            name,
            number as usize,
        ),
        number == 0 || number > usize::MAX ==> with_item(limits, name.push('=') + decimal_text(number)) == limits,
        with_item(limits, name) == limits,
{
    pairs_part_at_the_first_separator(name, decimal_text(number), '=');
    numbers_read_back(number, usize::MAX as nat);
}

/// What is no number sets nothing.
pub proof fn other_overrides_set_nothing(limits: Limits, name: Seq<char>, value: Seq<char>, i: int)
    requires
        !name.contains('='),
        0 <= i < value.len(),
        !('0' <= value[i] <= '9'),
        i == 0 ==> value[0] != '+' || value.len() == 1,
    ensures
        with_item(limits, name.push('=') + value) == limits,
        with_item(limits, name.push('=') + Seq::<char>::empty()) == limits,
{
    pairs_part_at_the_first_separator(name, value, '=');
    pairs_part_at_the_first_separator(name, Seq::empty(), '=');
    crate::text_laws::only_digits_are_numbers(value, usize::MAX as nat, i);
}

/// Overrides apply one after the other, so that of two for one limit the later
/// one counts.
pub proof fn overrides_apply_in_order(limits: Limits, first: Seq<char>, second: Seq<char>)
    ensures
        with_items(limits, split_text(first.push(',') + second, ',')) == with_items(
            with_items(limits, split_text(first, ',')),
            split_text(second, ','),
        ),
        !first.contains(',') ==> with_items(limits, split_text(first, ',')) == with_item(limits, first),
{
    splitting_takes_sides(first, second, ',');
    items_apply_in_order(limits, split_text(first, ','), split_text(second, ','));
    if !first.contains(',') {
        crate::path_laws::a_text_without_separator(first, ',');
        let items = seq![first];
        assert(items.drop_last() =~= Seq::<Seq<char>>::empty());
        assert(items.last() == first);
        reveal_with_fuel(with_items, 2);
    }
}

proof fn items_apply_in_order(limits: Limits, first: Seq<Seq<char>>, second: Seq<Seq<char>>)
    ensures
        with_items(limits, first + second) == with_items(with_items(limits, first), second),
    decreases second.len(),
{
    if second.len() == 0 {
        assert(first + second =~= first);
    } else {
        items_apply_in_order(limits, first, second.drop_last());
        assert((first + second).drop_last() =~= first + second.drop_last());
    }
}

/// The queue of a connection has room for all that can be under way to it, and
/// for its close.
pub proof fn queues_have_room_for_everything(limits: Limits)
    ensures
        limits.egress_frames + limits.cold_waiters + limits.connection_subscriptions < usize::MAX ==> limits.writer_places()
            == limits.egress_frames + limits.cold_waiters + limits.connection_subscriptions + 1,
        limits.egress_frames + limits.cold_waiters + limits.connection_subscriptions >= usize::MAX ==> limits.writer_places() == usize::MAX,
{
}

// ---------------------------------------------------------------------------
// Places and times

/// The path lies in the directory `.jeff` of the home directory, under that
/// name.
pub open spec fn is_kept_at_home(path: Seq<char>, home: Seq<char>, name: Seq<char>) -> bool {
    components(path) == components(home).push(ComponentView::Name(".jeff"@)).push(ComponentView::Name(name))
}

/// Snapshots may take 30 s, changes are waited out for 150 ms, and frames hold
/// 16 MiB.
pub open spec fn has_usual_times(config: ConfigView) -> bool {
    &&& config.snapshot_timeout.nanos == 30_000_000_000
    &&& config.debounce_window.nanos == 150_000_000
    &&& config.frame_limit == 16 * 1024 * 1024
}

proof fn kept_at_home(home: Seq<char>, name: Seq<char>)
    requires
        !name.contains('/'),
        name.len() > 1,
    ensures
        is_kept_at_home(crate::path::path_joined(crate::path::path_joined(home, ".jeff"@), name), home, name),
{
    reveal_strlit(".jeff");
    let directory = ".jeff"@;
    assert(directory =~= seq!['.', 'j', 'e', 'f', 'f']);
    assert(!directory.contains('/'));
    assert(directory.len() == 5);
    joining_leads_below(home, directory);
    joining_leads_below(crate::path::path_joined(home, directory), name);
}

/// The registry is `projects.json` in the directory `.jeff` at home, and the
/// socket is where the environment says, or else `jeffd.sock` beside it.
pub proof fn settings_follow_the_environment(home: Seq<char>, socket: Seq<char>)
    requires
        home.len() > 0 && home[0] == '/',
    ensures
        resolved(Some(home), None) matches Ok(config) && config.home == home && is_kept_at_home(config.registry, home, "projects.json"@)
            && is_kept_at_home(config.socket, home, "jeffd.sock"@) && has_usual_times(config),
        socket.len() > 0 && socket[0] == '/' ==> (resolved(Some(home), Some(socket)) matches Ok(config) && config.home == home
            && is_kept_at_home(config.registry, home, "projects.json"@) && config.socket == socket && has_usual_times(config)),
        socket.len() == 0 || socket[0] != '/' ==> resolved(Some(home), Some(socket)) == Err::<ConfigView, ConfigErrorView>(
            ConfigErrorView::RelativeSocket,
        ),
{
    reveal_strlit("projects.json");
    reveal_strlit("jeffd.sock");
    let registry = "projects.json"@;
    let own = "jeffd.sock"@;
    assert(registry =~= seq!['p', 'r', 'o', 'j', 'e', 'c', 't', 's', '.', 'j', 's', 'o', 'n']);
    assert(own =~= seq!['j', 'e', 'f', 'f', 'd', '.', 's', 'o', 'c', 'k']);
    assert(!registry.contains('/'));
    assert(!own.contains('/'));
    kept_at_home(home, registry);
    kept_at_home(home, own);
}

/// Without an absolute home directory there are no settings, whatever the
/// socket is.
pub proof fn settings_need_a_home(home: Seq<char>, socket: Option<Seq<char>>)
    requires
        home.len() == 0 || home[0] != '/',
    ensures
        resolved(None, socket) == Err::<ConfigView, ConfigErrorView>(ConfigErrorView::MissingHome),
        resolved(Some(home), socket) == Err::<ConfigView, ConfigErrorView>(ConfigErrorView::MissingHome),
{
}

/// The settings by default lie below the home directory, with the usual times.
pub proof fn default_settings_lie_at_home(home: Seq<char>)
    requires
        home.len() > 0,
        home.last() != '/',
    ensures
        ({
            let config = default_settings(Some(home));
            &&& config.home == home
            &&& has_usual_times(config)
            &&& is_kept_at_home(config.registry, home, "projects.json"@)
            &&& is_kept_at_home(config.socket, home, "jeffd.sock"@)
        }),
        default_settings(None).home.len() == 0,
{
    reveal_strlit("");
    reveal_strlit("/");
    reveal_strlit(".jeff");
    reveal_strlit("projects.json");
    reveal_strlit("jeffd.sock");
    reveal_strlit(".jeff/projects.json");
    reveal_strlit(".jeff/jeffd.sock");
    let registry = "projects.json"@;
    let own = "jeffd.sock"@;
    assert(registry =~= seq!['p', 'r', 'o', 'j', 'e', 'c', 't', 's', '.', 'j', 's', 'o', 'n']);
    assert(own =~= seq!['j', 'e', 'f', 'f', 'd', '.', 's', 'o', 'c', 'k']);
    assert(!registry.contains('/'));
    assert(!own.contains('/'));
    kept_at_home(home, registry);
    kept_at_home(home, own);
    assert(".jeff/projects.json"@ =~= ".jeff"@ + "/"@ + registry);
    assert(".jeff/jeffd.sock"@ =~= ".jeff"@ + "/"@ + own);
    let directory = home + "/"@ + ".jeff"@;
    assert(home + "/"@ + (".jeff"@ + "/"@ + registry) =~= directory + "/"@ + registry);
    assert(home + "/"@ + (".jeff"@ + "/"@ + own) =~= directory + "/"@ + own);
    assert(directory.last() == 'f');
}

/// Every complaint about the settings says what it is about, in full.
pub proof fn complaints_about_settings_are_told_in_full(detail: Seq<char>)
    ensures
        config_error_text(ConfigErrorView::MissingHome) == "HOME is not set"@,
        config_error_text(ConfigErrorView::RelativeSocket) == "JEFFD_SOCK must be an absolute path"@,
        config_error_text(ConfigErrorView::MissingSocketParent) == "socket path has no parent"@,
        is_made_of(config_error_text(ConfigErrorView::UnsafeDirectory(detail)), "unsafe socket directory "@, detail),
        is_made_of(config_error_text(ConfigErrorView::Io(detail)), "cannot prepare socket directory: "@, detail),
{
}

} // verus!
