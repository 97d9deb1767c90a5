//! The task graph, kept in a `petgraph` stable graph.

use crate::project::{SnapshotTask, TaskView};
use petgraph::algo::{has_path_connecting, is_cyclic_directed};
use petgraph::stable_graph::{NodeIndex, StableDiGraph, StableGraph};
use vstd::multiset::Multiset;
use vstd::prelude::*;

verus! {

/// Why one task points at another.
#[derive(Clone, Copy, Debug, PartialEq, Eq, PartialOrd, Ord, Structural)]
pub enum EdgeKind {
    Dependency,
    Discovery,
}

/// The directed stable graph of `petgraph`.
#[verifier::external_type_specification]
#[verifier::external_body]
#[verifier::reject_recursive_types(N)]
#[verifier::reject_recursive_types(E)]
#[verifier::reject_recursive_types(Ty)]
#[verifier::reject_recursive_types(Ix)]
pub struct ExStableGraph<N, E, Ty, Ix>(StableGraph<N, E, Ty, Ix>);

/// The marker of `petgraph` for directed graphs.
#[verifier::external_type_specification]
#[verifier::external_body]
pub struct ExDirected(petgraph::Directed);

/// The tasks of a graph by the slot that each one occupies.
pub uninterp spec fn graph_nodes(graph: StableGraph<SnapshotTask, EdgeKind, petgraph::Directed, u32>) -> Map<usize, TaskView>;

/// The arcs of a graph: the slot that each one leaves, the slot that it
/// reaches, and its kind.
pub uninterp spec fn graph_arcs(graph: StableGraph<SnapshotTask, EdgeKind, petgraph::Directed, u32>) -> Multiset<(usize, usize, EdgeKind)>;

/// Some arc leads from `a` to `b`.
pub open spec fn arc_between(arcs: Multiset<(usize, usize, EdgeKind)>, a: usize, b: usize) -> bool {
    arcs.contains((a, b, EdgeKind::Dependency)) || arcs.contains((a, b, EdgeKind::Discovery))
}

/// Each slot of `path` leads to the next by an arc.
pub open spec fn is_arc_path(arcs: Multiset<(usize, usize, EdgeKind)>, path: Seq<usize>) -> bool {
    &&& path.len() > 0
    &&& forall|i: int| 0 <= i < path.len() - 1 ==> arc_between(arcs, #[trigger] path[i], path[i + 1])
}

/// `b` is `a` or can be reached from it.
pub open spec fn slot_reaches(arcs: Multiset<(usize, usize, EdgeKind)>, a: usize, b: usize) -> bool {
    exists|path: Seq<usize>| #[trigger] is_arc_path(arcs, path) && path[0] == a && path.last() == b
}

/// Some arc lies on a way back to where it starts.
pub open spec fn arcs_have_cycle(arcs: Multiset<(usize, usize, EdgeKind)>) -> bool {
    exists|a: usize, b: usize| #[trigger] arc_between(arcs, a, b) && slot_reaches(arcs, b, a)
}

pub open spec fn no_nodes() -> Map<usize, TaskView> {
    Map::empty()
}

pub open spec fn no_arcs() -> Multiset<(usize, usize, EdgeKind)> {
    Multiset::empty()
}

/// `StableDiGraph::new`: a graph without nodes or edges.
#[verifier::external_body]
pub(crate) fn new_graph() -> (graph: StableDiGraph<SnapshotTask, EdgeKind>)
    ensures
        graph_nodes(graph) == no_nodes(),
        graph_arcs(graph) == no_arcs(),
{
    StableDiGraph::new()
}

/// `StableGraph::add_node`: the task gets a slot that was free, and nothing
/// else changes. It panics at the limit of its 32-bit index, which is left
/// out.
#[verifier::external_body]
pub(crate) fn add_node(graph: &mut StableDiGraph<SnapshotTask, EdgeKind>, task: SnapshotTask) -> (slot: usize)
    requires
        graph_nodes(*old(graph)).dom().finite(),
        graph_nodes(*old(graph)).dom().len() < u32::MAX,
    ensures
        !graph_nodes(*old(graph)).dom().contains(slot),
        graph_nodes(*final(graph)) == graph_nodes(*old(graph)).insert(slot, task@),
        graph_arcs(*final(graph)) == graph_arcs(*old(graph)),
{
    graph.add_node(task).index()
}

/// `StableGraph::add_edge`: one more arc between two slots that hold tasks. It
/// panics at the limit of its 32-bit index, which is left out.
#[verifier::external_body]
pub(crate) fn add_edge(graph: &mut StableDiGraph<SnapshotTask, EdgeKind>, from: usize, to: usize, kind: EdgeKind)
    requires
        graph_nodes(*old(graph)).dom().contains(from),
        graph_nodes(*old(graph)).dom().contains(to),
        graph_arcs(*old(graph)).len() < u32::MAX,
    ensures
        graph_nodes(*final(graph)) == graph_nodes(*old(graph)),
        graph_arcs(*final(graph)) == graph_arcs(*old(graph)).insert((from, to, kind)),
{
    graph.add_edge(NodeIndex::new(from), NodeIndex::new(to), kind);
}

/// `petgraph::algo::is_cyclic_directed`: whether the graph has a cycle, be it
/// of one node. It recurses as deep as the longest path.
#[verifier::external_body]
pub(crate) fn is_cyclic(graph: &StableDiGraph<SnapshotTask, EdgeKind>) -> (cyclic: bool)
    ensures
        cyclic == arcs_have_cycle(graph_arcs(*graph)),
{
    is_cyclic_directed(graph)
}

/// `petgraph::algo::has_path_connecting`: whether a path leads from one slot
/// to another; a slot always reaches itself.
#[verifier::external_body]
pub(crate) fn has_path(graph: &StableDiGraph<SnapshotTask, EdgeKind>, from: usize, to: usize) -> (connected: bool)
    requires
        graph_nodes(*graph).dom().contains(from),
        graph_nodes(*graph).dom().contains(to),
    ensures
        connected == slot_reaches(graph_arcs(*graph), from, to),
{
    has_path_connecting(graph, NodeIndex::new(from), NodeIndex::new(to), None)
}

} // verus!
