//! What the end of a run means: to what is kept, to those who wait and to those
//! who follow.

use crate::envelope::{error_message, event_message, result_message};
use crate::json::{json_bytes, json_field, JsonView};
use crate::message_laws::{events_say_their_name, failures_are_described, refusals_answer_their_request,
    replacements_carry_the_snapshot, results_answer_their_request, subscribers_get_id_and_snapshot};
use crate::project::{ProjectionView, SnapshotView};
use crate::project_json::projection_json;
use crate::server::answers::{additions_add_up, ending_reaches, nothing_is_added, only_adds_effects, telling_only_adds,
    telling_reaches_all, told_or_lost, what_is_told_lasts};
use crate::server::conversation::followers_are_told_once;
use crate::server::events::{answering_touches_clients_only, telling_touches_clients_only};
use crate::server::lists::{runs_are_found, waiters_for_is_a_part};
use crate::server::model::{active_place, subscribers, waiter_permit, waiters_for, RunView, ServerView, WaitKindView,
    WaiterView};
use crate::server::snapshots::{can_be_kept, failed_payload, longest_subscription_id, replaced_payload, subscription_result,
    KeptView};
use crate::snapshot::{failure_code, failure_text, FailureView};
use crate::state::{retained_size, CacheFailureView};
use crate::text::decimal_text;
use crate::time::Duration;
use vstd::prelude::*;

verus! {

// ---------------------------------------------------------------------------
// Which runs count

/// The run is the one that is under way for its project.
pub open spec fn is_under_way(view: ServerView, run: RunView) -> bool {
    &&& exists|k: int| 0 <= k < view.active.len() && #[trigger] view.active[k] == run
    &&& forall|i: int, j: int|
        0 <= i < j < view.active.len() ==> (#[trigger] view.active[i]).record.id != (#[trigger] view.active[j]).record.id
}

/// The run is for the project as it is registered now.
pub open spec fn is_up_to_date(view: ServerView, run: RunView) -> bool {
    &&& view.generations.dom().contains(run.record.id)
    &&& view.generations[run.record.id] == run.generation
    &&& exists|i: int| 0 <= i < view.projects.len() && #[trigger] view.projects[i] == run.record && view.projects[i].enabled
}

proof fn runs_under_way_are_found(view: ServerView, run: RunView)
    requires
        is_under_way(view, run),
    ensures
        0 <= active_place(view.active, run.record.id) < view.active.len(),
        view.active[active_place(view.active, run.record.id)] == run,
{
    runs_are_found(view.active, run.record.id);
    let k = choose|k: int| 0 <= k < view.active.len() && #[trigger] view.active[k] == run;
    let at = active_place(view.active, run.record.id);
    if k < at {
        assert(view.active[k].record.id != view.active[at].record.id);
    } else if at < k {
        assert(view.active[at].record.id != view.active[k].record.id);
    }
}

proof fn up_to_date_runs_are_current(view: ServerView, run: RunView)
    requires
        is_up_to_date(view, run),
    ensures
        view.is_current(run),
{
    let i = choose|i: int| 0 <= i < view.projects.len() && #[trigger] view.projects[i] == run.record && view.projects[i].enabled;
    assert(view.projects[i].enabled && crate::project::same_record(view.projects[i], run.record));
}

/// The end of a run that is not under way changes nothing at all.
pub proof fn unexpected_runs_change_nothing(view: ServerView, run: RunView, result: Result<SnapshotView, FailureView>, now: Duration)
    requires
        forall|i: int|
            0 <= i < view.active.len() ==> (#[trigger] view.active[i]).record.id != run.record.id || view.active[i].generation
                != run.generation,
    ensures
        view.finished(run, result, now) == view,
        view.run_drained(run) == view,
{
    runs_are_found(view.active, run.record.id);
}

/// What a run for an earlier registration found out is thrown away: nothing
/// that is kept changes, and nobody is sent it.
pub proof fn outdated_runs_leave_no_trace(view: ServerView, run: RunView, result: Result<SnapshotView, FailureView>, other: Result<SnapshotView, FailureView>, now: Duration)
    requires
        is_under_way(view, run),
        view.generations.dom().contains(run.record.id) ==> view.generations[run.record.id] != run.generation,
    ensures
        view.finished(run, result, now) == view.finished(run, other, now),
        view.finished(run, result, now).caches == view.caches,
        view.finished(run, result, now).retained_cache_bytes == view.retained_cache_bytes,
{
    runs_under_way_are_found(view, run);
    let id = run.record.id;
    let at = active_place(view.active, id);
    let idle = ServerView { active: view.active.remove(at), ..view };
    let rested = idle.with_dirty(idle.dirty.ended(id, now));
    crate::server::runs::asking_starts_runs(rested, id, now);
    answering_touches_clients_only(
        rested.waiters_taken(id),
        waiters_for(rested.waiters, id),
        rested.cached_projection(id),
        rested.failure_message(id),
        false,
    );
}

// ---------------------------------------------------------------------------
// What is kept

/// A good snapshot is kept if every frame that may carry it fits with an id of
/// the longest kind, and all that is kept stays within its bound; it then
/// counts with its own size in place of that of its predecessor.
pub proof fn snapshots_that_fit_are_kept(view: ServerView, run: RunView, snapshot: SnapshotView, limit: usize)
    requires
        limit == if view.limits.snapshot_bytes <= view.limits.frame_bytes { view.limits.snapshot_bytes } else { view.limits.frame_bytes },
        ({
            let stale = ProjectionView { project_id: run.record.id, path: run.record.path, snapshot, degraded: seq!["snapshot_stale"@] };
            &&& json_bytes(result_message(""@, projection_json(stale))).len() + 24576 <= limit
            &&& json_bytes(result_message(""@, subscription_result(longest_subscription_id(), stale))).len() + 24576 <= limit
            &&& json_bytes(event_message("snapshot.replaced"@, replaced_payload(run.record.id, stale))).len() <= limit
        }),
        view.caches.dom().contains(run.record.id),
        view.caches[run.record.id].retained_bytes <= view.retained_cache_bytes,
        view.retained_cache_bytes - view.caches[run.record.id].retained_bytes + retained_size(run.record, snapshot)
            <= view.limits.cache_bytes,
    ensures
        view.judged(run, Ok(snapshot)) matches Ok(kept) && {
            &&& kept.snapshot == snapshot
            &&& kept.retained_bytes == retained_size(run.record, snapshot)
            &&& kept.total_bytes == view.retained_cache_bytes - view.caches[run.record.id].retained_bytes + retained_size(
                run.record,
                snapshot,
            )
        },
{
    assert(can_be_kept(run.record, snapshot, limit));
}

/// A snapshot that some frame could not carry is refused with the limit that it
/// passed, one that would take what is kept over its bound with that bound, and
/// a failure stays the failure that it is.
pub proof fn snapshots_that_do_not_fit_are_refused(view: ServerView, run: RunView, snapshot: SnapshotView, failure: FailureView, limit: usize)
    requires
        limit == if view.limits.snapshot_bytes <= view.limits.frame_bytes { view.limits.snapshot_bytes } else { view.limits.frame_bytes },
        view.caches.dom().contains(run.record.id),
    ensures
        view.judged(run, Err(failure)) == Err::<KeptView, FailureView>(failure),
        ({
            let stale = ProjectionView { project_id: run.record.id, path: run.record.path, snapshot, degraded: seq!["snapshot_stale"@] };
            json_bytes(event_message("snapshot.replaced"@, replaced_payload(run.record.id, stale))).len() > limit
                || json_bytes(result_message(""@, projection_json(stale))).len() > limit
        }) ==> view.judged(run, Ok(snapshot)) == Err::<KeptView, FailureView>(
            FailureView::OutputTooLarge("retained snapshot exceeds "@ + decimal_text(limit as nat) + " bytes"@),
        ),
        view.retained_cache_bytes - view.caches[run.record.id].retained_bytes + retained_size(run.record, snapshot)
            > view.limits.cache_bytes && view.judged(run, Ok(snapshot)) is Err && !(view.judged(run, Ok(snapshot))->Err_0 is OutputTooLarge)
            ==> view.judged(run, Ok(snapshot)) == Err::<KeptView, FailureView>(
            FailureView::CacheFull("aggregate retained cache exceeds "@ + decimal_text(view.limits.cache_bytes as nat) + " bytes"@),
        ),
        view.retained_cache_bytes - view.caches[run.record.id].retained_bytes + retained_size(run.record, snapshot)
            > view.limits.cache_bytes ==> view.judged(run, Ok(snapshot)) is Err,
{
}

/// After a good run the cache of the project holds its snapshot, fresh, and no
/// failure; after a bad one it holds what it held before, marked as stale, and
/// why the run failed. No other cache is touched.
pub proof fn caches_hold_the_last_good_snapshot(view: ServerView, run: RunView, result: Result<SnapshotView, FailureView>, now: Duration)
    requires
        is_under_way(view, run),
        is_up_to_date(view, run),
        view.caches.dom().contains(run.record.id),
    ensures
        ({
            let id = run.record.id;
            let after = view.finished(run, result, now);
            let old = view.caches[id];
            let new = after.caches[id];
            &&& after.caches.dom() == view.caches.dom()
            &&& forall|other: Seq<char>| other != id && view.caches.dom().contains(other) ==> #[trigger] after.caches[other] == view.caches[other]
            &&& new.record == old.record
            &&& match view.judged(run, result) {
                Ok(kept) => {
                    &&& new.projection == Some(
                        ProjectionView {
                            project_id: old.record.id,
                            path: old.record.path,
                            snapshot: kept.snapshot,
                            degraded: Seq::empty(),
                        },
                    )
                    &&& new.last_error is None
                    &&& new.last_successful_generation == Some(kept.snapshot.generated_at)
                    &&& new.retained_bytes == kept.retained_bytes
                    &&& after.retained_cache_bytes == kept.total_bytes
                },
                Err(failure) => {
                    &&& new.projection == match old.projection {
                        Some(projection) => Some(ProjectionView { degraded: seq!["snapshot_stale"@], ..projection }),
                        None => None,
                    }
                    &&& new.last_error == Some(CacheFailureView { message: failure_text(failure), exit_code: failure_code(failure) })
                    &&& new.last_successful_generation == old.last_successful_generation
                    &&& new.retained_bytes == old.retained_bytes
                    &&& after.retained_cache_bytes == view.retained_cache_bytes
                },
            }
        }),
{
    let id = run.record.id;
    runs_under_way_are_found(view, run);
    let idle = ServerView { active: view.active.remove(active_place(view.active, id)), ..view };
    up_to_date_runs_are_current(idle, run);
    let outcome = idle.judged(run, result);
    assert(outcome == view.judged(run, result));
    let had_good = idle.cached_projection(id) is Some;
    let too_large = outcome matches Err(FailureView::OutputTooLarge(_));
    let cached = idle.cached(id, outcome);
    answering_touches_clients_only(
        cached.waiters_taken(id),
        waiters_for(cached.waiters, id),
        cached.cached_projection(id),
        cached.failure_message(id),
        too_large,
    );
    let answered = cached.waiters_answered(id, too_large);
    telling_touches_clients_only(answered, id, outcome, had_good);
    let after = view.finished(run, result, now);
    assert(after.caches == cached.caches);
    assert(after.caches.dom() =~= view.caches.dom());
}

// ---------------------------------------------------------------------------
// Those who wait

/// The document is what a waiting request is answered with: the snapshot, with
/// the id of the subscription if one was asked for, or why there is none.
pub open spec fn is_reply_to(document: JsonView, waiter: WaiterView, projection: Option<ProjectionView>, message: Seq<char>) -> bool {
    &&& json_field(document, "v"@) == Some(JsonView::Unsigned(1))
    &&& json_field(document, "kind"@) == Some(JsonView::Text("res"@))
    &&& json_field(document, "id"@) == Some(JsonView::Text(waiter.request_id))
    &&& json_field(document, "ok"@) == Some(JsonView::Bool(projection is Some))
    &&& match projection {
        Some(projection) => match waiter.kind {
            WaitKindView::Get => json_field(document, "result"@) == Some(projection_json(projection)),
            WaitKindView::Subscribe(subscription) => {
                let result = json_field(document, "result"@)->0;
                &&& json_field(result, "subscriptionId"@) == Some(JsonView::Text(subscription))
                &&& json_field(result, "snapshot"@) == Some(projection_json(projection))
            },
        },
        None => {
            let error = json_field(document, "error"@)->0;
            &&& json_field(error, "code"@) == Some(JsonView::Text("unavailable"@))
            &&& json_field(error, "message"@) == Some(JsonView::Text(message))
        },
    }
}

/// The waiting request got its reply, or its connection was brought to its end.
pub open spec fn got_its_reply(a: ServerView, b: ServerView, waiter: WaiterView, projection: Option<ProjectionView>, message: Seq<char>) -> bool {
    exists|document: JsonView|
        #[trigger] told_or_lost(a, b, waiter.connection, document) && is_reply_to(document, waiter, projection, message)
}

proof fn one_waiter_gets_its_reply(view: ServerView, waiter: WaiterView, projection: Option<ProjectionView>, message: Seq<char>, too_large: bool)
    requires
        projection is Some || !too_large,
    ensures
        ({
            let after = view.waiter_answered(waiter, projection, message, too_large);
            &&& only_adds_effects(view, after)
            &&& after.connections == view.connections
            &&& view.connected(waiter.connection) ==> got_its_reply(view, after, waiter, projection, message)
        }),
{
    let c = waiter.connection;
    let id = waiter.request_id;
    let after = view.waiter_answered(waiter, projection, message, too_large);
    nothing_is_added(view, view);
    if !view.connected(c) {
        nothing_is_added(view, after);
    } else {
        match projection {
            Some(projection) => {
                let result = match waiter.kind {
                    WaitKindView::Get => projection_json(projection),
                    WaitKindView::Subscribe(subscription) => subscription_result(subscription, projection),
                };
                let document = result_message(id, result);
                let sent = view.ended(c, document, waiter_permit(), false).0;
                ending_reaches(view, c, document, waiter_permit(), false);
                results_answer_their_request(id, result);
                match waiter.kind {
                    WaitKindView::Subscribe(subscription) => {
                        subscribers_get_id_and_snapshot(subscription, projection);
                    },
                    WaitKindView::Get => {},
                }
                nothing_is_added(sent, after);
                additions_add_up(view, sent, after);
                what_is_told_lasts(view, view, sent, after, c, document);
                assert(is_reply_to(document, waiter, Some(projection), message));
                assert(told_or_lost(view, after, c, document));
            },
            None => {
                let unsubscribed = match waiter.kind {
                    WaitKindView::Get => view,
                    WaitKindView::Subscribe(subscription) => view.without_subscription(subscription),
                };
                nothing_is_added(view, unsubscribed);
                let document = error_message(id, "unavailable"@, message);
                ending_reaches(unsubscribed, c, document, waiter_permit(), true);
                refusals_answer_their_request(id, "unavailable"@, message);
                nothing_is_added(after, after);
                additions_add_up(view, unsubscribed, after);
                what_is_told_lasts(view, unsubscribed, after, after, c, document);
                assert(is_reply_to(document, waiter, None, message));
                assert(told_or_lost(view, after, c, document));
            },
        }
    }
}

proof fn replies_last(a: ServerView, b: ServerView, c: ServerView, d: ServerView, waiter: WaiterView, projection: Option<ProjectionView>, message: Seq<char>)
    requires
        only_adds_effects(a, b),
        got_its_reply(b, c, waiter, projection, message),
        only_adds_effects(c, d),
    ensures
        got_its_reply(a, d, waiter, projection, message),
{
    let document = choose|document: JsonView|
        #[trigger] told_or_lost(b, c, waiter.connection, document) && is_reply_to(document, waiter, projection, message);
    what_is_told_lasts(a, b, c, d, waiter.connection, document);
    assert(told_or_lost(a, d, waiter.connection, document));
}

proof fn all_waiters_get_their_replies(view: ServerView, list: Seq<WaiterView>, projection: Option<ProjectionView>, message: Seq<char>, too_large: bool)
    requires
        projection is Some || !too_large,
    ensures
        ({
            let after = view.waiters_answered_from(list, projection, message, too_large);
            &&& only_adds_effects(view, after)
            &&& after.connections == view.connections
            &&& forall|i: int|
                0 <= i < list.len() && view.connected((#[trigger] list[i]).connection) ==> got_its_reply(
                    view,
                    after,
                    list[i],
                    projection,
                    message,
                )
        }),
    decreases list.len(),
{
    let after = view.waiters_answered_from(list, projection, message, too_large);
    if list.len() == 0 {
        nothing_is_added(view, after);
    } else {
        let shorter = list.drop_last();
        let before = view.waiters_answered_from(shorter, projection, message, too_large);
        all_waiters_get_their_replies(view, shorter, projection, message, too_large);
        one_waiter_gets_its_reply(before, list.last(), projection, message, too_large);
        additions_add_up(view, before, after);
        nothing_is_added(view, view);
        nothing_is_added(after, after);
        assert forall|i: int| 0 <= i < list.len() && view.connected((#[trigger] list[i]).connection) implies got_its_reply(
            view,
            after,
            list[i],
            projection,
            message,
        ) by {
            if i < shorter.len() {
                assert(shorter[i] == list[i]);
                replies_last(view, view, before, after, list[i], projection, message);
            } else {
                replies_last(view, before, after, after, list[i], projection, message);
            }
        }
    }
}

/// Whoever waits for a project gets what the run found, each under its own
/// request: the fresh snapshot, the last good one where the run failed, or
/// where there is none why it failed.
pub proof fn those_who_wait_get_what_the_run_found(view: ServerView, run: RunView, result: Result<SnapshotView, FailureView>, now: Duration, j: int)
    requires
        is_under_way(view, run),
        is_up_to_date(view, run),
        view.caches.dom().contains(run.record.id),
        0 <= j < view.waiters.len(),
        view.waiters[j].project_id == run.record.id,
        view.connected(view.waiters[j].connection),
        !(view.judged(run, result) matches Err(FailureView::OutputTooLarge(_))),
    ensures
        ({
            let old = view.caches[run.record.id];
            let after = view.finished(run, result, now);
            match view.judged(run, result) {
                Ok(kept) => got_its_reply(
                    view,
                    after,
                    view.waiters[j],
                    Some(
                        ProjectionView {
                            project_id: old.record.id,
                            path: old.record.path,
                            snapshot: kept.snapshot,
                            degraded: Seq::empty(),
                        },
                    ),
                    Seq::empty(),
                ),
                Err(failure) => got_its_reply(
                    view,
                    after,
                    view.waiters[j],
                    match old.projection {
                        Some(projection) => Some(ProjectionView { degraded: seq!["snapshot_stale"@], ..projection }),
                        None => None,
                    },
                    failure_text(failure),
                ),
            }
        }),
{
    let id = run.record.id;
    let waiter = view.waiters[j];
    runs_under_way_are_found(view, run);
    let idle = ServerView { active: view.active.remove(active_place(view.active, id)), ..view };
    up_to_date_runs_are_current(idle, run);
    let outcome = idle.judged(run, result);
    assert(outcome == view.judged(run, result));
    let had_good = idle.cached_projection(id) is Some;
    let cached = idle.cached(id, outcome);
    let list = waiters_for(cached.waiters, id);
    let taken = cached.waiters_taken(id);
    let projection = cached.cached_projection(id);
    let message = cached.failure_message(id);
    all_waiters_get_their_replies(taken, list, projection, message, false);
    let answered = cached.waiters_answered(id, false);
    telling_only_adds(answered, id, outcome, had_good);
    let told = answered.subscribers_told(id, outcome, had_good);
    let after = view.finished(run, result, now);
    nothing_is_added(view, taken);
    nothing_is_added(told, after);
    additions_add_up(answered, told, after);
    waiters_for_is_a_part(view.waiters, id);
    let wanted = |w: WaiterView| w.project_id == id;
    broadcast use vstd::seq_lib::group_filter_ensures;
    assert(view.waiters.filter(wanted).contains(waiter));
    let i = choose|i: int| 0 <= i < list.len() && list[i] == waiter;
    assert(taken.connected(list[i].connection));
    replies_last(view, taken, answered, after, waiter, projection, message);
    if outcome is Ok {
        let document = choose|document: JsonView|
            #[trigger] told_or_lost(view, after, waiter.connection, document) && is_reply_to(document, waiter, projection, message);
        assert(is_reply_to(document, waiter, projection, Seq::empty()));
    }
}

/// Whoever waits where no snapshot is known is told the last failure, or that
/// there is no snapshot where nothing failed yet.
pub proof fn without_a_snapshot_the_last_failure_is_told(view: ServerView, id: Seq<char>, j: int)
    requires
        !view.caches.dom().contains(id) || view.caches[id].projection is None,
        0 <= j < view.waiters.len(),
        view.waiters[j].project_id == id,
        view.connected(view.waiters[j].connection),
    ensures
        ({
            let message = if view.caches.dom().contains(id) && view.caches[id].last_error is Some {
                (view.caches[id].last_error->0).message
            } else {
                "snapshot unavailable"@
            };
            got_its_reply(view, view.waiters_answered(id, false), view.waiters[j], None, message)
        }),
{
    let waiter = view.waiters[j];
    let list = waiters_for(view.waiters, id);
    let taken = view.waiters_taken(id);
    let message = view.failure_message(id);
    all_waiters_get_their_replies(taken, list, None, message, false);
    let after = view.waiters_answered(id, false);
    nothing_is_added(view, taken);
    nothing_is_added(after, after);
    waiters_for_is_a_part(view.waiters, id);
    let wanted = |w: WaiterView| w.project_id == id;
    broadcast use vstd::seq_lib::group_filter_ensures;
    assert(view.waiters.filter(wanted).contains(waiter));
    let i = choose|i: int| 0 <= i < list.len() && list[i] == waiter;
    assert(taken.connected(list[i].connection));
    replies_last(view, taken, after, after, waiter, None, message);
}

// ---------------------------------------------------------------------------
// Those who follow

/// The document announces the new snapshot of a project.
pub open spec fn announces_snapshot(document: JsonView, project: Seq<char>, projection: ProjectionView) -> bool {
    let payload = json_field(document, "payload"@)->0;
    &&& json_field(document, "kind"@) == Some(JsonView::Text("event"@))
    &&& json_field(document, "name"@) == Some(JsonView::Text("snapshot.replaced"@))
    &&& json_field(payload, "projectId"@) == Some(JsonView::Text(project))
    &&& json_field(payload, "snapshot"@) == Some(projection_json(projection))
}

/// The document announces that a snapshot of a project failed, and why.
pub open spec fn announces_failure(document: JsonView, project: Seq<char>, failure: FailureView) -> bool {
    let payload = json_field(document, "payload"@)->0;
    &&& json_field(document, "kind"@) == Some(JsonView::Text("event"@))
    &&& json_field(document, "name"@) == Some(JsonView::Text("snapshot.failed"@))
    &&& json_field(payload, "projectId"@) == Some(JsonView::Text(project))
    &&& json_field(payload, "message"@) == Some(JsonView::Text(failure_text(failure)))
    &&& match failure_code(failure) {
        None => json_field(payload, "exitCode"@) == Some(JsonView::Null),
        Some(code) => {
            ||| json_field(payload, "exitCode"@) matches Some(JsonView::Unsigned(n)) && n == code
            ||| json_field(payload, "exitCode"@) matches Some(JsonView::Negative(n)) && n == code
        },
    }
}

/// Whoever follows a project that has a snapshot is sent the new one, or told
/// why there is none, after each run; where there was none before, those who
/// wait have been answered and nobody else is told.
pub proof fn followers_learn_of_every_run(view: ServerView, id: Seq<char>, outcome: Result<KeptView, FailureView>, projection: ProjectionView, j: int)
    requires
        0 <= j < view.subscriptions.len(),
        view.subscriptions[j].project_id == id,
        view.subscriptions[j].returned,
        view.connected(view.subscriptions[j].connection),
        view.caches.dom().contains(id),
        view.caches[id].projection == Some(projection),
    ensures
        ({
            let after = view.subscribers_told(id, outcome, true);
            exists|document: JsonView| {
                &&& #[trigger] told_or_lost(view, after, view.subscriptions[j].connection, document)
                &&& match outcome {
                    Ok(_) => announces_snapshot(document, id, projection),
                    Err(failure) => announces_failure(document, id, failure),
                }
            }
        }),
        view.subscribers_told(id, outcome, false) == view,
{
    let connection = view.subscriptions[j].connection;
    followers_are_told_once(view.subscriptions, id, connection);
    let list = subscribers(view.subscriptions, id);
    assert(view.subscriptions[j].returned && view.subscriptions[j].project_id == id);
    let i = choose|i: int| 0 <= i < list.len() && list[i] == connection;
    assert(view.connected(list[i]));
    match outcome {
        Ok(_) => {
            let payload = replaced_payload(id, projection);
            telling_reaches_all(view, list, "snapshot.replaced"@, payload);
            events_say_their_name("snapshot.replaced"@, payload);
            replacements_carry_the_snapshot(id, projection);
            let document = event_message("snapshot.replaced"@, payload);
            assert(told_or_lost(view, view.subscribers_told(id, outcome, true), connection, document));
        },
        Err(failure) => {
            let payload = failed_payload(id, failure_text(failure), failure_code(failure));
            telling_reaches_all(view, list, "snapshot.failed"@, payload);
            events_say_their_name("snapshot.failed"@, payload);
            failures_are_described(id, failure_text(failure), failure_code(failure));
            let document = event_message("snapshot.failed"@, payload);
            assert(told_or_lost(view, view.subscribers_told(id, outcome, true), connection, document));
        },
    }
}

} // verus!
