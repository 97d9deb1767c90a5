//! What holds of the graph and the layout of every snapshot.

use crate::graph_store::EdgeKind;
use crate::layout::{cache_updated, fingerprint_of, planned, LayoutCacheView};
use crate::project::{TaskId, TaskIdView, TaskView};
use crate::sorted::{finite_sets_can_be_listed, in_order, Ordered};
use crate::topology::{are_listed, dependencies_are_kept, discoveries_close_no_cycle, has_cycle,
    linked, links_of, reaches, reaches_itself, settled, topology_of, DegradationView, EdgeView, GraphEdge};
use vstd::prelude::*;

verus! {

/// An edge for everything that a task depends on, and back.
spec fn edges_of(task: TaskView) -> Seq<EdgeView> {
    Seq::new(task.deps.len(), |k: int| EdgeView { from: task.deps[k], to: task.id, kind: EdgeKind::Dependency }) + Seq::new(
        task.deps.len(),
        |k: int| EdgeView { from: task.id, to: task.deps[k], kind: EdgeKind::Dependency },
    ) + match task.discovered_from {
        Some(origin) => seq![EdgeView { from: origin, to: task.id, kind: EdgeKind::Discovery }],
        None => Seq::empty(),
    }
}

spec fn all_edges(tasks: Seq<TaskView>) -> Seq<EdgeView>
    decreases tasks.len(),
{
    if tasks.len() == 0 {
        Seq::empty()
    } else {
        all_edges(tasks.drop_last()) + edges_of(tasks.last())
    }
}

proof fn all_edges_has(tasks: Seq<TaskView>, i: int, k: int)
    requires
        0 <= i < tasks.len(),
        0 <= k < edges_of(tasks[i]).len(),
    ensures
        all_edges(tasks).contains(edges_of(tasks[i])[k]),
    decreases tasks.len(),
{
    let before = all_edges(tasks.drop_last());
    let edge = edges_of(tasks[i])[k];
    if i == tasks.len() - 1 {
        assert(all_edges(tasks)[before.len() + k] == edge);
    } else {
        all_edges_has(tasks.drop_last(), i, k);
        let at = choose|at: int| 0 <= at < before.len() && before[at] == edge;
        assert(all_edges(tasks)[at] == edge);
    }
}

proof fn settled_is_finite(dependencies: Set<EdgeView>, discoveries: Seq<EdgeView>)
    requires
        dependencies.finite(),
    ensures
        settled(dependencies, discoveries).0.finite(),
    decreases discoveries.len(),
{
    if discoveries.len() > 0 {
        settled_is_finite(dependencies, discoveries.drop_last());
    }
}

/// The lists of a topology hold what the snapshot says, whatever it says.
pub proof fn every_topology_is_listed(tasks: Seq<TaskView>)
    ensures
        are_listed(links_of(tasks)),
{
    let links = links_of(tasks);
    let edges = all_edges(tasks).to_set();
    let ids = Seq::new(tasks.len(), |i: int| tasks[i].id).to_set();
    vstd::seq_lib::seq_to_set_is_finite(all_edges(tasks));
    vstd::seq_lib::seq_to_set_is_finite(Seq::new(tasks.len(), |i: int| tasks[i].id));
    assert(links.ids.subset_of(ids)) by {
        assert forall|id: TaskIdView| links.ids.contains(id) implies ids.contains(id) by {
            let i = choose|i: int| 0 <= i < tasks.len() && (#[trigger] tasks[i]).id == id;
            assert(Seq::new(tasks.len(), |i: int| tasks[i].id)[i] == id);
        }
    }
    assert forall|e: EdgeView| links.dependencies.contains(e) implies edges.contains(e) by {
        let i = choose|i: int| 0 <= i < tasks.len() && (#[trigger] tasks[i]).id == e.to && tasks[i].deps.contains(e.from);
        let k = choose|k: int| 0 <= k < tasks[i].deps.len() && tasks[i].deps[k] == e.from;
        assert(edges_of(tasks[i])[k] == e);
        all_edges_has(tasks, i, k);
    }
    assert forall|e: EdgeView| links.missing.contains(e) implies edges.contains(e) by {
        let i = choose|i: int| 0 <= i < tasks.len() && (#[trigger] tasks[i]).id == e.from && tasks[i].deps.contains(e.to);
        let k = choose|k: int| 0 <= k < tasks[i].deps.len() && tasks[i].deps[k] == e.to;
        assert(edges_of(tasks[i])[tasks[i].deps.len() + k] == e);
        all_edges_has(tasks, i, tasks[i].deps.len() + k);
    }
    assert forall|e: EdgeView| links.discoveries.contains(e) implies edges.contains(e) by {
        let i = choose|i: int| 0 <= i < tasks.len() && (#[trigger] tasks[i]).id == e.to && tasks[i].discovered_from == Some(e.from);
        let k = 2 * tasks[i].deps.len() as int;
        assert(edges_of(tasks[i])[k] == e);
        all_edges_has(tasks, i, k);
    }
    vstd::set_lib::lemma_len_subset(links.ids, ids);
    vstd::set_lib::lemma_len_subset(links.dependencies, edges);
    vstd::set_lib::lemma_len_subset(links.missing, edges);
    vstd::set_lib::lemma_len_subset(links.discoveries, edges);
    let less = GraphEdge::less();
    TaskId::order_is_strict();
    GraphEdge::order_is_strict();
    finite_sets_can_be_listed(links.ids, TaskId::less());
    finite_sets_can_be_listed(links.missing, less);
    finite_sets_can_be_listed(links.discoveries, less);
    let discoveries = in_order(links.discoveries, less);
    settled_is_finite(links.dependencies, discoveries);
    finite_sets_can_be_listed(settled(links.dependencies, discoveries).0, less);
}

/// Where the dependencies of a snapshot go round in no circle, its whole graph
/// goes round in none, no task points at itself, and no cycle is noted,
/// whatever the discoveries are.
pub proof fn acyclic_snapshots_have_acyclic_graphs(tasks: Seq<TaskView>)
    requires
        !has_cycle(links_of(tasks).dependencies),
    ensures
        ({
            let topology = topology_of(links_of(tasks));
            &&& !has_cycle(topology.edges.to_set())
            &&& forall|e: EdgeView| #[trigger] topology.edges.contains(e) ==> e.from != e.to
            &&& !topology.dependency_cyclic
            &&& !topology.degradations.contains(DegradationView::CyclicDependencies)
        }),
{
    let links = links_of(tasks);
    let topology = topology_of(links);
    let discoveries = in_order(links.discoveries, GraphEdge::less());
    every_topology_is_listed(tasks);
    discoveries_close_no_cycle(links.dependencies, discoveries);
    let edges = settled(links.dependencies, discoveries).0;
    assert(topology.edges.to_set() =~= edges) by {
        assert forall|e: EdgeView| topology.edges.to_set().contains(e) <==> edges.contains(e) by {
            assert(topology.edges.contains(e) <==> edges.contains(e));
        }
    }
    assert forall|e: EdgeView| #[trigger] topology.edges.contains(e) implies e.from != e.to by {
        assert(edges.contains(e));
        if e.from == e.to {
            reaches_itself(edges, e.from);
            assert(linked(edges, e.from, e.to));
            assert(reaches(edges, e.to, e.from));
        }
    }
}

/// The dependencies can be told from the edges.
proof fn dependencies_are_the_dependency_edges(tasks: Seq<TaskView>, e: EdgeView)
    ensures
        links_of(tasks).dependencies.contains(e) <==> topology_of(links_of(tasks)).edges.contains(e) && e.kind == EdgeKind::Dependency,
{
    let links = links_of(tasks);
    let discoveries = in_order(links.discoveries, GraphEdge::less());
    every_topology_is_listed(tasks);
    dependencies_are_kept(links.dependencies, discoveries);
    let edges = settled(links.dependencies, discoveries).0;
    assert(topology_of(links).edges.contains(e) <==> edges.contains(e));
    if edges.contains(e) && !links.dependencies.contains(e) {
        assert(discoveries.contains(e));
        assert(links.discoveries.contains(e));
    }
}

/// Equal fingerprints give equal plans.
pub proof fn fingerprints_determine_plans(first: Seq<TaskView>, second: Seq<TaskView>)
    requires
        fingerprint_of(topology_of(links_of(first))) == fingerprint_of(topology_of(links_of(second))),
    ensures
        planned(topology_of(links_of(first))) == planned(topology_of(links_of(second))),
{
    assert forall|e: EdgeView| links_of(first).dependencies.contains(e) <==> links_of(second).dependencies.contains(e) by {
        dependencies_are_the_dependency_edges(first, e);
        dependencies_are_the_dependency_edges(second, e);
    }
    assert(links_of(first).dependencies =~= links_of(second).dependencies);
}

/// The cache holds the fingerprint and the plan of these tasks.
pub open spec fn caches(cache: LayoutCacheView, tasks: Seq<TaskView>) -> bool {
    &&& cache.fingerprint == Some(fingerprint_of(topology_of(links_of(tasks))))
    &&& cache.plan == Some(planned(topology_of(links_of(tasks))))
}

/// The cache is new, or holds the layout of some snapshot.
pub open spec fn is_consistent(cache: LayoutCacheView) -> bool {
    cache.fingerprint is None || exists|tasks: Seq<TaskView>| caches(cache, tasks)
}

/// However many snapshots were shown to a cache, what it holds after the next
/// one is the layout of that one, kept or not.
pub proof fn cached_layouts_are_right(cache: LayoutCacheView, tasks: Seq<TaskView>)
    requires
        is_consistent(cache),
    ensures
        caches(cache_updated(cache, topology_of(links_of(tasks))).1, tasks),
        is_consistent(cache_updated(cache, topology_of(links_of(tasks))).1),
{
    if cache.fingerprint == Some(fingerprint_of(topology_of(links_of(tasks)))) {
        let shown = choose|shown: Seq<TaskView>| caches(cache, shown);
        fingerprints_determine_plans(shown, tasks);
    }
    assert(caches(cache_updated(cache, topology_of(links_of(tasks))).1, tasks));
}

} // verus!
