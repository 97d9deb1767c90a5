//! What the debounce tracker does over any run of calls.

use crate::state::DirtyView;
use crate::time::Duration;
use vstd::prelude::*;

verus! {

/// One call of the tracker that can change it.
pub enum TrackerCall {
    MarkDirty(Seq<char>, Duration),
    Due(Duration),
    StartNow(Seq<char>),
    Finished(Seq<char>, Duration),
    Remove(Seq<char>),
}

/// The tracker after a call.
pub open spec fn called(view: DirtyView, call: TrackerCall) -> DirtyView {
    match call {
        TrackerCall::MarkDirty(id, now) => view.marked(id, now),
        TrackerCall::Due(now) => view.started_due(now),
        TrackerCall::StartNow(id) => view.started(id),
        TrackerCall::Finished(id, now) => view.ended(id, now),
        TrackerCall::Remove(id) => view.forgotten(id),
    }
}

/// A new tracker after these calls.
pub open spec fn after_calls(window: Duration, calls: Seq<TrackerCall>) -> DirtyView
    decreases calls.len(),
{
    if calls.len() == 0 {
        DirtyView { window, projects: Map::empty() }
    } else {
        called(after_calls(window, calls.drop_last()), calls.last())
    }
}

/// The call hands the project out: `due` lists it, or `start_now` says that it
/// started.
pub open spec fn hands_out(view: DirtyView, call: TrackerCall, id: Seq<char>) -> bool {
    match call {
        TrackerCall::Due(now) => view.is_due(id, now),
        TrackerCall::StartNow(started) => started == id && !view.running(id),
        _ => false,
    }
}

/// The call takes the project back.
pub open spec fn takes_back(call: TrackerCall, id: Seq<char>) -> bool {
    match call {
        TrackerCall::Finished(ended, _) => ended == id,
        TrackerCall::Remove(removed) => removed == id,
        _ => false,
    }
}

/// The call at `at` handed the project out, and no later one took it back.
pub open spec fn out_since(window: Duration, calls: Seq<TrackerCall>, id: Seq<char>, at: int) -> bool {
    &&& 0 <= at < calls.len()
    &&& hands_out(after_calls(window, calls.take(at)), calls[at], id)
    &&& forall|later: int| at < later < calls.len() ==> !takes_back(#[trigger] calls[later], id)
}

/// Whatever was called, a project is running exactly if some call handed it
/// out and none took it back since.
pub proof fn running_from_start_to_end(window: Duration, calls: Seq<TrackerCall>, id: Seq<char>)
    ensures
        after_calls(window, calls).running(id) <==> exists|at: int| out_since(window, calls, id, at),
    decreases calls.len(),
{
    if calls.len() > 0 {
        let before = calls.drop_last();
        let view = after_calls(window, before);
        let last = calls.last();
        let end = calls.len() - 1;
        running_from_start_to_end(window, before, id);
        assert(calls.take(end) =~= before);
        assert forall|at: int| 0 <= at < end implies calls.take(at) =~= #[trigger] before.take(at) by {}
        if after_calls(window, calls).running(id) {
            if hands_out(view, last, id) {
                assert(out_since(window, calls, id, end));
            } else {
                assert(view.running(id) && !takes_back(last, id));
                let at = choose|at: int| out_since(window, before, id, at);
                assert(calls.take(at) =~= before.take(at));
                assert forall|later: int| at < later < calls.len() implies !takes_back(#[trigger] calls[later], id) by {
                    if later < end {
                        assert(before[later] == calls[later]);
                    }
                }
                assert(out_since(window, calls, id, at));
            }
        }
        if exists|at: int| out_since(window, calls, id, at) {
            let at = choose|at: int| out_since(window, calls, id, at);
            if at < end {
                assert(calls.take(at) =~= before.take(at));
                assert(!takes_back(calls[end], id));
                assert forall|later: int| at < later < before.len() implies !takes_back(#[trigger] before[later], id) by {
                    assert(before[later] == calls[later]);
                }
                assert(out_since(window, before, id, at));
                assert(view.running(id));
            } else {
                assert(hands_out(view, last, id));
            }
        }
    }
}

/// The project changes at each of these times.
pub open spec fn marked_at(view: DirtyView, id: Seq<char>, times: Seq<Duration>) -> DirtyView
    decreases times.len(),
{
    if times.len() == 0 {
        view
    } else {
        marked_at(view, id, times.drop_last()).marked(id, times.last())
    }
}

proof fn many_changes_are_one(view: DirtyView, id: Seq<char>, times: Seq<Duration>, any: Duration)
    requires
        view.running(id),
        times.len() > 0,
    ensures
        marked_at(view, id, times) == view.marked(id, any),
    decreases times.len(),
{
    if times.len() > 1 {
        many_changes_are_one(view, id, times.drop_last(), any);
    } else {
        assert(marked_at(view, id, times.drop_last()) == view);
    }
    assert(marked_at(view, id, times).projects =~= view.marked(id, any).projects);
}

/// A burst of changes while a project is running leaves it running and never
/// due. Its end makes it due once, from one window after the end on, however
/// many changes there were and whenever they came.
pub proof fn bursts_cause_one_rerun(view: DirtyView, id: Seq<char>, times: Seq<Duration>, end: Duration, now: Duration, later: Duration)
    requires
        view.running(id),
        times.len() > 0,
    ensures
        marked_at(view, id, times).running(id),
        !marked_at(view, id, times).is_due(id, now),
        marked_at(view, id, times).started_due(now).projects[id] == marked_at(view, id, times).projects[id],
        marked_at(view, id, times).ended(id, end).is_due(id, now) <==> now.nanos >= view.deadline(end).nanos,
        marked_at(view, id, times).ended(id, end).is_due(id, now) ==> !marked_at(view, id, times).ended(id, end).started_due(
            now,
        ).is_due(id, later),
{
    many_changes_are_one(view, id, times, end);
}

/// The end of a project that is not running changes nothing, so that a second
/// end after the first changes nothing either.
pub proof fn ends_without_a_run_change_nothing(view: DirtyView, id: Seq<char>, first: Duration, second: Duration)
    ensures
        !view.running(id) ==> view.ended(id, first) == view,
        view.ended(id, first).ended(id, second) == view.ended(id, first),
{
}

/// Changes of a project do not start or end it.
pub proof fn changes_start_nothing(view: DirtyView, id: Seq<char>, other: Seq<char>, now: Duration)
    ensures
        view.marked(id, now).running(other) == view.running(other),
{
}

} // verus!
