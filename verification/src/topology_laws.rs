//! What a snapshot's graph, its notes and its layout say, in terms of the
//! tasks that the snapshot lists.

use crate::graph_laws::every_topology_is_listed;
use crate::graph_store::EdgeKind;
use crate::layout::{grid_cells, planned, PlanView};
use crate::project::{id_less, TaskId, TaskIdView, TaskView};
use crate::sorted::{in_order, Ordered};
use crate::topology::{cycle_notes, dependencies_are_kept, depends, discovered, dropped_notes, has_cycle, has_task, is_first_of,
    is_first_task, is_path, linked, links_of, missing_notes, navigated, reaches, settled, topology_of, DegradationView, EdgeView,
    GraphEdge, SelectionDirection, TopologyView};
use crate::viewport::{is_best_at, is_best_hit, HitView};
use vstd::prelude::*;

verus! {

// ---------------------------------------------------------------------------
// What a snapshot says

/// The snapshot lists a task of that id.
pub open spec fn is_listed(tasks: Seq<TaskView>, id: TaskIdView) -> bool {
    exists|i: int| 0 <= i < tasks.len() && (#[trigger] tasks[i]).id == id
}

/// A task of the first id names the second among what it depends on.
pub open spec fn needs(tasks: Seq<TaskView>, task: TaskIdView, needed: TaskIdView) -> bool {
    exists|i: int, k: int|
        0 <= i < tasks.len() && 0 <= k < tasks[i].deps.len() && tasks[i].id == task && #[trigger] tasks[i].deps[k] == needed
}

/// A task of the first id says that it was discovered from the second.
pub open spec fn came_from(tasks: Seq<TaskView>, task: TaskIdView, origin: TaskIdView) -> bool {
    exists|i: int| 0 <= i < tasks.len() && (#[trigger] tasks[i]).id == task && tasks[i].discovered_from == Some(origin)
}

proof fn needs_is_depends(tasks: Seq<TaskView>, task: TaskIdView, needed: TaskIdView)
    ensures
        needs(tasks, task, needed) <==> depends(tasks, task, needed),
{
    if needs(tasks, task, needed) {
        let (i, k) = choose|i: int, k: int|
            0 <= i < tasks.len() && 0 <= k < tasks[i].deps.len() && tasks[i].id == task && #[trigger] tasks[i].deps[k] == needed;
        assert(tasks[i].deps.contains(needed));
        assert(tasks[i].id == task);
    }
    if depends(tasks, task, needed) {
        let i = choose|i: int| 0 <= i < tasks.len() && (#[trigger] tasks[i]).id == task && tasks[i].deps.contains(needed);
        let k = choose|k: int| 0 <= k < tasks[i].deps.len() && tasks[i].deps[k] == needed;
        assert(tasks[i].deps[k] == needed);
    }
}

/// The graph has the tasks of the snapshot, each id once, in order: numbers
/// before names, the smaller first.
pub proof fn the_graph_has_the_listed_tasks(tasks: Seq<TaskView>, id: TaskIdView, i: int, j: int)
    ensures
        ({
            let ids = topology_of(links_of(tasks)).ids;
            &&& ids.contains(id) <==> is_listed(tasks, id)
            &&& 0 <= i < j < ids.len() ==> ids[i] != ids[j] && match (ids[i], ids[j]) {
                (TaskIdView::Number(x), TaskIdView::Number(y)) => x < y,
                (TaskIdView::Number(_), TaskIdView::String(_)) => true,
                (TaskIdView::String(_), TaskIdView::Number(_)) => false,
                (TaskIdView::String(x), TaskIdView::String(y)) => crate::text::text_less(x, y),
            }
        }),
{
    every_topology_is_listed(tasks);
    let links = links_of(tasks);
    let ids = topology_of(links).ids;
    assert(ids.contains(id) <==> links.ids.contains(id));
    assert(has_task(tasks, id) <==> is_listed(tasks, id));
    if 0 <= i < j < ids.len() {
        let less = TaskId::less();
        TaskId::order_is_strict();
        assert(less(ids[i], ids[j]));
        assert(id_less(ids[i], ids[j]));
        if ids[i] == ids[j] {
            assert(less(ids[i], ids[i]));
        }
    }
}

/// A dependency edge leads from what is needed to what needs it, exactly where
/// both are listed; what is needed and not listed is noted instead.
pub proof fn dependencies_lead_to_what_needs_them(tasks: Seq<TaskView>, task: TaskIdView, needed: TaskIdView)
    ensures
        ({
            let topology = topology_of(links_of(tasks));
            &&& topology.edges.contains(EdgeView { from: needed, to: task, kind: EdgeKind::Dependency }) <==> needs(
                tasks,
                task,
                needed,
            ) && is_listed(tasks, needed)
            &&& topology.degradations.contains(
                DegradationView::MissingDependency { dependent: task, dependency: needed },
            ) <==> needs(tasks, task, needed) && !is_listed(tasks, needed)
        }),
{
    every_topology_is_listed(tasks);
    needs_is_depends(tasks, task, needed);
    let links = links_of(tasks);
    let topology = topology_of(links);
    let less = GraphEdge::less();
    let discoveries = in_order(links.discoveries, less);
    let (edges, dropped) = settled(links.dependencies, discoveries);
    let edge = EdgeView { from: needed, to: task, kind: EdgeKind::Dependency };
    dependencies_are_kept(links.dependencies, discoveries);
    assert(has_task(tasks, needed) <==> is_listed(tasks, needed));
    assert(links.dependencies.contains(edge) <==> needs(tasks, task, needed) && is_listed(tasks, needed));
    assert(topology.edges.contains(edge) <==> edges.contains(edge));
    if edges.contains(edge) && !links.dependencies.contains(edge) {
        assert(discoveries.contains(edge));
        assert(links.discoveries.contains(edge));
    }
    let note = DegradationView::MissingDependency { dependent: task, dependency: needed };
    let lack = EdgeView { from: task, to: needed, kind: EdgeKind::Dependency };
    let missing = in_order(links.missing, less);
    assert(missing.contains(lack) <==> links.missing.contains(lack));
    notes_are_what_they_are(missing, has_cycle(links.dependencies), dropped, note);
    if topology.degradations.contains(note) {
        let k = choose|k: int| 0 <= k < missing.len() && missing_notes(missing)[k] == note;
        assert(missing[k].from == task && missing[k].to == needed);
        assert(missing.contains(missing[k]));
        assert(links.missing.contains(missing[k]));
        assert(missing[k] == lack);
    }
    if links.missing.contains(lack) {
        let k = choose|k: int| 0 <= k < missing.len() && missing[k] == lack;
        assert(missing_notes(missing)[k] == note);
    }
}

/// A note is one about something missing, about a circle, or about a discovery
/// that was dropped.
proof fn notes_are_what_they_are(missing: Seq<EdgeView>, cyclic: bool, dropped: Seq<EdgeView>, note: DegradationView)
    ensures
        ({
            let notes = missing_notes(missing) + cycle_notes(cyclic) + dropped_notes(dropped);
            &&& note is MissingDependency ==> (notes.contains(note) <==> exists|k: int| 0 <= k < missing.len() && missing_notes(missing)[k] == note)
            &&& note is CyclicDiscovery ==> (notes.contains(note) <==> exists|k: int| 0 <= k < dropped.len() && dropped_notes(dropped)[k] == note)
            &&& note is CyclicDependencies ==> (notes.contains(note) <==> cyclic)
        }),
{
    let a = missing_notes(missing);
    let b = cycle_notes(cyclic);
    let c = dropped_notes(dropped);
    let notes = a + b + c;
    if notes.contains(note) {
        let k = choose|k: int| 0 <= k < notes.len() && notes[k] == note;
        if k < a.len() {
            assert(a[k] == note);
        } else if k < a.len() + b.len() {
            assert(b[k - a.len()] == note);
        } else {
            assert(c[k - a.len() - b.len()] == note);
        }
    }
    if exists|k: int| 0 <= k < missing.len() && missing_notes(missing)[k] == note {
        let k = choose|k: int| 0 <= k < missing.len() && missing_notes(missing)[k] == note;
        assert(notes[k] == note);
    }
    if exists|k: int| 0 <= k < dropped.len() && dropped_notes(dropped)[k] == note {
        let k = choose|k: int| 0 <= k < dropped.len() && dropped_notes(dropped)[k] == note;
        assert(notes[a.len() + b.len() + k] == note);
    }
    if cyclic && note is CyclicDependencies {
        assert(notes[a.len() as int] == note);
    }
}

// ---------------------------------------------------------------------------
// Circles

/// Each of the tasks is needed by the next, and the last is the first.
pub open spec fn is_circle(tasks: Seq<TaskView>, round: Seq<TaskIdView>) -> bool {
    &&& round.len() >= 2
    &&& round[0] == round.last()
    &&& forall|i: int| 0 <= i < round.len() - 1 ==> needs(tasks, round[i + 1], #[trigger] round[i]) && is_listed(tasks, round[i])
}

proof fn dependency_links(tasks: Seq<TaskView>, a: TaskIdView, b: TaskIdView)
    ensures
        linked(links_of(tasks).dependencies, a, b) <==> needs(tasks, b, a) && is_listed(tasks, a),
{
    needs_is_depends(tasks, b, a);
    assert(has_task(tasks, a) <==> is_listed(tasks, a));
}

/// A circle of dependencies is noted exactly where there is one.
pub proof fn circles_are_noted(tasks: Seq<TaskView>)
    ensures
        ({
            let topology = topology_of(links_of(tasks));
            &&& topology.dependency_cyclic <==> exists|round: Seq<TaskIdView>| is_circle(tasks, round)
            &&& topology.degradations.contains(DegradationView::CyclicDependencies) <==> topology.dependency_cyclic
        }),
{
    let links = links_of(tasks);
    let edges = links.dependencies;
    if has_cycle(edges) {
        let (a, b) = choose|a: TaskIdView, b: TaskIdView| #[trigger] linked(edges, a, b) && reaches(edges, b, a);
        let path = choose|path: Seq<TaskIdView>| #[trigger] is_path(edges, path) && path[0] == b && path.last() == a;
        let round = seq![a] + path;
        assert forall|i: int| 0 <= i < round.len() - 1 implies needs(tasks, round[i + 1], #[trigger] round[i]) && is_listed(
            tasks,
            round[i],
        ) by {
            if i == 0 {
                dependency_links(tasks, a, b);
            } else {
                assert(linked(edges, path[i - 1], path[i - 1 + 1]));
                dependency_links(tasks, path[i - 1], path[i]);
            }
        }
        assert(is_circle(tasks, round));
    }
    if exists|round: Seq<TaskIdView>| is_circle(tasks, round) {
        let round = choose|round: Seq<TaskIdView>| is_circle(tasks, round);
        let path = round.drop_first();
        assert forall|i: int| 0 <= i < path.len() - 1 implies linked(edges, #[trigger] path[i], path[i + 1]) by {
            assert(needs(tasks, round[i + 1 + 1], round[i + 1]));
            dependency_links(tasks, path[i], path[i + 1]);
        }
        assert(is_path(edges, path));
        assert(needs(tasks, round[0int + 1], round[0]));
        dependency_links(tasks, round[0], round[1]);
        assert(path.last() == round[0]);
        assert(reaches(edges, round[1], round[0]));
        assert(has_cycle(edges));
    }
    let less = GraphEdge::less();
    let (_, dropped) = settled(links.dependencies, in_order(links.discoveries, less));
    notes_are_what_they_are(in_order(links.missing, less), has_cycle(edges), dropped, DegradationView::CyclicDependencies);
}

// ---------------------------------------------------------------------------
// Discoveries

proof fn reaching_lasts(edges: Set<EdgeView>, more: Set<EdgeView>, a: TaskIdView, b: TaskIdView)
    requires
        edges.subset_of(more),
        reaches(edges, a, b),
    ensures
        reaches(more, a, b),
{
    let path = choose|path: Seq<TaskIdView>| #[trigger] is_path(edges, path) && path[0] == a && path.last() == b;
    assert forall|i: int| 0 <= i < path.len() - 1 implies linked(more, #[trigger] path[i], path[i + 1]) by {
        assert(linked(edges, path[i], path[i + 1]));
    }
    assert(is_path(more, path));
}

proof fn each_discovery_is_kept_or_dropped(dependencies: Set<EdgeView>, discoveries: Seq<EdgeView>, e: EdgeView)
    requires
        discoveries.no_duplicates(),
        forall|i: int| 0 <= i < discoveries.len() ==> !dependencies.contains(#[trigger] discoveries[i]),
    ensures
        ({
            let (edges, dropped) = settled(dependencies, discoveries);
            &&& dependencies.subset_of(edges)
            &&& dropped.contains(e) ==> discoveries.contains(e) && !edges.contains(e) && reaches(edges, e.to, e.from)
            &&& discoveries.contains(e) && !edges.contains(e) ==> dropped.contains(e)
            &&& edges.contains(e) ==> dependencies.contains(e) || discoveries.contains(e)
        }),
    decreases discoveries.len(),
{
    if discoveries.len() > 0 {
        let shorter = discoveries.drop_last();
        let last = discoveries.last();
        assert forall|i: int| 0 <= i < shorter.len() implies !dependencies.contains(#[trigger] shorter[i]) by {
            assert(shorter[i] == discoveries[i]);
        }
        each_discovery_is_kept_or_dropped(dependencies, shorter, e);
        each_discovery_is_kept_or_dropped(dependencies, shorter, last);
        let (before, early) = settled(dependencies, shorter);
        let (edges, dropped) = settled(dependencies, discoveries);
        assert(!shorter.contains(last)) by {
            if shorter.contains(last) {
                let k = choose|k: int| 0 <= k < shorter.len() && shorter[k] == last;
                assert(discoveries[k] == discoveries[discoveries.len() - 1]);
            }
        }
        assert(!dependencies.contains(last)) by {
            assert(!dependencies.contains(discoveries[discoveries.len() - 1]));
        }
        if dropped.contains(e) {
            let k = choose|k: int| 0 <= k < dropped.len() && dropped[k] == e;
            if k < early.len() {
                assert(early[k] == e);
                assert(early.contains(e));
                let m = choose|m: int| 0 <= m < shorter.len() && shorter[m] == e;
                assert(discoveries[m] == e);
                assert(e != last);
                reaching_lasts(before, edges, e.to, e.from);
            } else {
                assert(e == last);
                assert(discoveries[discoveries.len() - 1] == e);
            }
        }
        if discoveries.contains(e) && !edges.contains(e) {
            if e != last {
                let m = choose|m: int| 0 <= m < discoveries.len() && discoveries[m] == e;
                assert(shorter[m] == e);
                assert(early.contains(e));
                let k = choose|k: int| 0 <= k < early.len() && early[k] == e;
                assert(dropped[k] == e);
            } else {
                assert(dropped[dropped.len() - 1] == e);
            }
        }
        if edges.contains(e) && !dependencies.contains(e) {
            if e == last {
                assert(discoveries[discoveries.len() - 1] == e);
            } else {
                let m = choose|m: int| 0 <= m < shorter.len() && shorter[m] == e;
                assert(discoveries[m] == e);
            }
        }
    }
}

/// A discovery edge leads from where a task came from to the task. Every
/// discovery between listed tasks is shown as an edge or noted as dropped, and
/// never both; one is dropped only where its edge would close a circle, and no
/// edge is shown that no task speaks of.
pub proof fn discoveries_are_shown_or_noted(tasks: Seq<TaskView>, task: TaskIdView, origin: TaskIdView)
    ensures
        ({
            let topology = topology_of(links_of(tasks));
            let shown = topology.edges.contains(EdgeView { from: origin, to: task, kind: EdgeKind::Discovery });
            let noted = topology.degradations.contains(DegradationView::CyclicDiscovery { from: origin, to: task });
            &&& shown || noted <==> came_from(tasks, task, origin) && is_listed(tasks, origin)
            &&& !(shown && noted)
            &&& noted ==> reaches(topology.edges.to_set(), task, origin)
        }),
{
    every_topology_is_listed(tasks);
    let links = links_of(tasks);
    let topology = topology_of(links);
    let less = GraphEdge::less();
    let discoveries = in_order(links.discoveries, less);
    let (edges, dropped) = settled(links.dependencies, discoveries);
    let e = EdgeView { from: origin, to: task, kind: EdgeKind::Discovery };
    GraphEdge::order_is_strict();
    assert(discoveries.no_duplicates()) by {
        assert forall|i: int, j: int| 0 <= i < discoveries.len() && 0 <= j < discoveries.len() && i != j implies discoveries[i]
            != discoveries[j] by {
            if i < j {
                assert(less(discoveries[i], discoveries[j]));
            } else {
                assert(less(discoveries[j], discoveries[i]));
            }
        }
    }
    assert forall|i: int| 0 <= i < discoveries.len() implies !links.dependencies.contains(#[trigger] discoveries[i]) by {
        assert(discoveries.contains(discoveries[i]));
        assert(links.discoveries.contains(discoveries[i]));
    }
    each_discovery_is_kept_or_dropped(links.dependencies, discoveries, e);
    assert(discovered(tasks, task, origin) <==> came_from(tasks, task, origin));
    assert(has_task(tasks, origin) <==> is_listed(tasks, origin));
    assert(discoveries.contains(e) <==> links.discoveries.contains(e));
    assert(topology.edges.contains(e) <==> edges.contains(e));
    assert(topology.edges.to_set() =~= edges) by {
        assert forall|x: EdgeView| topology.edges.to_set().contains(x) <==> edges.contains(x) by {
            assert(topology.edges.contains(x) <==> edges.contains(x));
        }
    }
    let note = DegradationView::CyclicDiscovery { from: origin, to: task };
    notes_are_what_they_are(in_order(links.missing, less), has_cycle(links.dependencies), dropped, note);
    if topology.degradations.contains(note) {
        let k = choose|k: int| 0 <= k < dropped.len() && dropped_notes(dropped)[k] == note;
        each_discovery_is_kept_or_dropped(links.dependencies, discoveries, dropped[k]);
        assert(dropped.contains(dropped[k]));
        assert(links.discoveries.contains(dropped[k]));
        assert(dropped[k] == e);
    }
    if dropped.contains(e) {
        let k = choose|k: int| 0 <= k < dropped.len() && dropped[k] == e;
        assert(dropped_notes(dropped)[k] == note);
    }
}

/// Every edge joins two listed tasks.
pub proof fn edges_join_listed_tasks(tasks: Seq<TaskView>, e: EdgeView)
    requires
        topology_of(links_of(tasks)).edges.contains(e),
    ensures
        is_listed(tasks, e.from),
        is_listed(tasks, e.to),
{
    match e.kind {
        EdgeKind::Dependency => {
            dependencies_lead_to_what_needs_them(tasks, e.to, e.from);
            assert(e == EdgeView { from: e.from, to: e.to, kind: EdgeKind::Dependency });
            let (i, k) = choose|i: int, k: int|
                0 <= i < tasks.len() && 0 <= k < tasks[i].deps.len() && tasks[i].id == e.to && #[trigger] tasks[i].deps[k] == e.from;
            assert(tasks[i].id == e.to);
        },
        EdgeKind::Discovery => {
            discoveries_are_shown_or_noted(tasks, e.to, e.from);
            assert(e == EdgeView { from: e.from, to: e.to, kind: EdgeKind::Discovery });
            let i = choose|i: int| 0 <= i < tasks.len() && (#[trigger] tasks[i]).id == e.to && tasks[i].discovered_from == Some(e.from);
            assert(tasks[i].id == e.to);
        },
    }
}

/// What a note is about, in the order in which notes are shown.
pub open spec fn note_rank(note: DegradationView) -> int {
    match note {
        DegradationView::MissingDependency { .. } => 0,
        DegradationView::CyclicDependencies => 1,
        DegradationView::CyclicDiscovery { .. } => 2,
    }
}

/// The notes come in order: what is missing, then the circle, then what was
/// dropped; those about missing tasks by who misses what.
pub proof fn notes_come_in_order(tasks: Seq<TaskView>, i: int, j: int)
    requires
        0 <= i < j < topology_of(links_of(tasks)).degradations.len(),
    ensures
        ({
            let notes = topology_of(links_of(tasks)).degradations;
            &&& note_rank(notes[i]) <= note_rank(notes[j])
            &&& match (notes[i], notes[j]) {
                (
                    DegradationView::MissingDependency { dependent: a, dependency: x },
                    DegradationView::MissingDependency { dependent: b, dependency: y },
                ) => id_less(a, b) || (a == b && id_less(x, y)),
                (DegradationView::CyclicDependencies, DegradationView::CyclicDependencies) => false,
                _ => true,
            }
        }),
{
    every_topology_is_listed(tasks);
    let links = links_of(tasks);
    let less = GraphEdge::less();
    let missing = in_order(links.missing, less);
    let notes = topology_of(links).degradations;
    if j < missing.len() {
        assert(notes[i] == missing_notes(missing)[i]);
        assert(notes[j] == missing_notes(missing)[j]);
        assert(less(missing[i], missing[j]));
        assert(missing.contains(missing[i]) && missing.contains(missing[j]));
        assert(links.missing.contains(missing[i]) && links.missing.contains(missing[j]));
    }
}

/// The edges come in order, by the task they lead from, then by the one they
/// lead to; of two between the same tasks the dependency comes first.
pub proof fn edges_come_in_order(tasks: Seq<TaskView>, i: int, j: int)
    requires
        0 <= i < j < topology_of(links_of(tasks)).edges.len(),
    ensures
        ({
            let a = topology_of(links_of(tasks)).edges[i];
            let b = topology_of(links_of(tasks)).edges[j];
            ||| id_less(a.from, b.from)
            ||| a.from == b.from && id_less(a.to, b.to)
            ||| a.from == b.from && a.to == b.to && a.kind == EdgeKind::Dependency && b.kind == EdgeKind::Discovery
        }),
{
    every_topology_is_listed(tasks);
    let less = GraphEdge::less();
    let edges = topology_of(links_of(tasks)).edges;
    assert(less(edges[i], edges[j]));
}

// ---------------------------------------------------------------------------
// Layout

/// A pair of places stands for an edge: the tasks at these places are the ones
/// that the edge leads from and to.
pub open spec fn stands_for(ids: Seq<TaskIdView>, pair: (usize, usize), edge: EdgeView) -> bool {
    &&& 0 <= pair.0 < ids.len()
    &&& 0 <= pair.1 < ids.len()
    &&& ids[pair.0 as int] == edge.from
    &&& ids[pair.1 as int] == edge.to
}

/// A graph without circles is laid out in layers along all of its edges, of
/// either kind, each in its own direction; one with a circle of dependencies
/// goes on a grid; without tasks there is nothing to lay out.
pub proof fn layers_follow_every_edge(topology: TopologyView)
    requires
        topology.ids.len() <= usize::MAX,
        forall|e: EdgeView| #[trigger] topology.edges.contains(e) ==> topology.ids.contains(e.from) && topology.ids.contains(e.to),
    ensures
        match planned(topology) {
            PlanView::Empty => topology.ids.len() == 0,
            PlanView::Grid { .. } => topology.ids.len() > 0 && topology.dependency_cyclic,
            PlanView::Layered { ids, edges } => {
                &&& topology.ids.len() > 0
                &&& !topology.dependency_cyclic
                &&& ids == topology.ids
                &&& edges.len() == topology.edges.len()
                &&& forall|k: int| 0 <= k < edges.len() ==> stands_for(ids, #[trigger] edges[k], topology.edges[k])
            },
        },
{
    match planned(topology) {
        PlanView::Layered { ids, edges } => {
            assert forall|k: int| 0 <= k < edges.len() implies stands_for(ids, #[trigger] edges[k], topology.edges[k]) by {
                let e = topology.edges[k];
                assert(topology.edges.contains(e));
                assert(ids.contains(e.from) && ids.contains(e.to));
                let a = ids.index_of(e.from);
                let b = ids.index_of(e.to);
                assert(0 <= a < ids.len() && ids[a] == e.from);
                assert(0 <= b < ids.len() && ids[b] == e.to);
            }
        },
        _ => {},
    }
}

/// On the grid every task has the place of its turn: row by row, each row full
/// before the next begins, on the smallest square that has room for all.
pub proof fn grids_are_filled_row_by_row(topology: TopologyView)
    requires
        topology.ids.len() > 0,
        topology.dependency_cyclic,
    ensures
        planned(topology) matches PlanView::Grid { cells } && exists|side: int| {
            &&& side >= 1
            &&& (side - 1) * (side - 1) < topology.ids.len() <= #[trigger] (side * side)
            &&& cells.len() == topology.ids.len()
            &&& forall|i: int| 0 <= i < cells.len() ==> {
                &&& (#[trigger] cells[i]).id == topology.ids[i]
                &&& 0 <= cells[i].column < side
                &&& cells[i].row * side + cells[i].column == i
            }
        },
{
    let ids = topology.ids;
    let side = crate::layout::grid_width(ids.len() as int);
    crate::layout::grid_width_exists(ids.len() as int);
    let cells = grid_cells(ids);
    assert forall|i: int| 0 <= i < cells.len() implies {
        &&& (#[trigger] cells[i]).id == topology.ids[i]
        &&& 0 <= cells[i].column < side
        &&& cells[i].row * side + cells[i].column == i
    } by {
        assert(0 <= i % side < side && (i / side) * side + i % side == i) by (nonlinear_arith)
            requires
                side >= 1,
        ;
    }
    assert((side - 1) * (side - 1) < ids.len() <= side * side) by {
        if side == 1 {
            assert((side - 1) * (side - 1) == 0) by (nonlinear_arith)
                requires
                    side == 1,
            ;
        }
    }
}

// ---------------------------------------------------------------------------
// Selection

/// A step forward leads to the next task and a step back to the one before,
/// round the ends; from nowhere, forward leads to the first and back to the
/// last.
pub proof fn steps_go_round(ids: Seq<TaskIdView>, i: int)
    requires
        ids.no_duplicates(),
        0 <= i < ids.len(),
    ensures
        navigated(ids, Some(ids[i]), SelectionDirection::Forward) == Some(ids[if i == ids.len() - 1 { 0 } else { i + 1 }]),
        navigated(ids, Some(ids[i]), SelectionDirection::Backward) == Some(ids[if i == 0 { ids.len() - 1 } else { i - 1 }]),
        navigated(ids, None, SelectionDirection::Forward) == Some(ids[0]),
        navigated(ids, None, SelectionDirection::Backward) == Some(ids[ids.len() - 1]),
{
    assert(ids.contains(ids[i]));
    assert(ids.index_of(ids[i]) == i);
}

/// From a task that is not there any more, forward leads to the first and back
/// to the last; where there are no tasks, nowhere.
pub proof fn steps_from_a_lost_task_start_over(ids: Seq<TaskIdView>, lost: TaskIdView, direction: SelectionDirection)
    requires
        !ids.contains(lost),
    ensures
        ids.len() > 0 ==> navigated(ids, Some(lost), SelectionDirection::Forward) == Some(ids[0]),
        ids.len() > 0 ==> navigated(ids, Some(lost), SelectionDirection::Backward) == Some(ids[ids.len() - 1]),
        ids.len() == 0 ==> navigated(ids, Some(lost), direction) is None && navigated(ids, None, direction) is None,
{
}

/// Of the tasks under a point the smallest is selected, and of several of one
/// size the one whose id comes last.
pub proof fn the_smallest_hit_is_selected(hits: Seq<HitView>, id: TaskIdView)
    requires
        is_best_hit(hits, id),
    ensures
        exists|i: int|
            0 <= i < hits.len() && hits[i].id == id && forall|j: int|
                0 <= j < hits.len() ==> hits[i].area <= #[trigger] hits[j].area && (hits[i].area == hits[j].area ==> !id_less(
                    id,
                    hits[j].id,
                )),
{
    let i = choose|i: int| #[trigger] is_best_at(hits, i) && hits[i].id == id;
    assert(hits[i].id == id);
    assert forall|j: int| 0 <= j < hits.len() implies hits[i].area <= #[trigger] hits[j].area && (hits[i].area == hits[j].area
        ==> !id_less(id, hits[j].id)) by {
        assert(!crate::viewport::preferred(hits[j], hits[i]));
    }
}

/// Of several tasks with one id the graph shows the first.
pub proof fn the_first_of_repeated_tasks_is_shown(tasks: Seq<TaskView>, id: TaskIdView, task: TaskView, i: int)
    requires
        is_first_of(tasks, id, task),
        0 <= i < tasks.len(),
        tasks[i].id == id,
    ensures
        exists|at: int| 0 <= at <= i && #[trigger] tasks[at] == task && task.id == id,
        (forall|k: int| 0 <= k < i ==> (#[trigger] tasks[k]).id != id) ==> task == tasks[i],
{
    let at = choose|at: int| #[trigger] is_first_task(tasks, id, at) && task == tasks[at];
    assert(tasks[at] == task);
}

} // verus!
