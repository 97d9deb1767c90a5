//! The task graph of a snapshot: which tasks there are, which ones wait for
//! which, and what about the snapshot cannot be shown.

use crate::graph_store::{add_edge, add_node, arc_between, arcs_have_cycle, graph_arcs, graph_nodes,
    has_path, is_arc_path, is_cyclic, new_graph, no_arcs, slot_reaches, EdgeKind};
use crate::project::{copied_ids, id_less, id_order_total, id_order_transitive, Snapshot, SnapshotTask,
    TaskId, TaskIdView, TaskView};
use crate::sorted::{ascending, find_place, in_order, insert_ordered, lists, order_is_unique,
    strict_order, Ordered};
use crate::views::{views, views_push};
use petgraph::stable_graph::StableDiGraph;
use vstd::multiset::Multiset;
use vstd::prelude::*;

verus! {

// ---------------------------------------------------------------------------
// Edges and their order

/// One task pointing at another.
#[derive(Debug, PartialEq, Eq)]
pub struct GraphEdge {
    pub from: TaskId,
    pub to: TaskId,
    pub kind: EdgeKind,
}

pub struct EdgeView {
    pub from: TaskIdView,
    pub to: TaskIdView,
    pub kind: EdgeKind,
}

impl View for GraphEdge {
    type V = EdgeView;

    open spec fn view(&self) -> EdgeView {
        EdgeView { from: self.from@, to: self.to@, kind: self.kind }
    }
}

impl Clone for GraphEdge {
    fn clone(&self) -> (copy: Self)
        ensures
            copy@ == self@,
    {
        GraphEdge { from: self.from.clone(), to: self.to.clone(), kind: self.kind }
    }
}

/// Edges are ordered by where they start, then by where they end, then
/// dependencies first.
pub open spec fn edge_less(a: EdgeView, b: EdgeView) -> bool {
    if a.from != b.from {
        id_less(a.from, b.from)
    } else if a.to != b.to {
        id_less(a.to, b.to)
    } else {
        a.kind == EdgeKind::Dependency && b.kind == EdgeKind::Discovery
    }
}

impl Ordered for TaskId {
    open spec fn less() -> spec_fn(TaskIdView, TaskIdView) -> bool {
        |a: TaskIdView, b: TaskIdView| id_less(a, b)
    }

    proof fn order_is_strict() {
        let less = Self::less();
        assert forall|a: TaskIdView| !#[trigger] less(a, a) by {
            id_order_total(a, a);
        }
        assert forall|a: TaskIdView, b: TaskIdView, c: TaskIdView| #[trigger] less(a, b) && #[trigger] less(b, c) implies less(a, c) by {
            id_order_transitive(a, b, c);
        }
        assert forall|a: TaskIdView, b: TaskIdView| #[trigger] less(a, b) || less(b, a) || a == b by {
            id_order_total(a, b);
        }
    }

    fn comes_before(&self, other: &Self) -> (before: bool) {
        self.before(other)
    }
}

impl Ordered for GraphEdge {
    open spec fn less() -> spec_fn(EdgeView, EdgeView) -> bool {
        |a: EdgeView, b: EdgeView| edge_less(a, b)
    }

    proof fn order_is_strict() {
        let less = Self::less();
        assert forall|a: EdgeView| !#[trigger] less(a, a) by {}
        assert forall|a: EdgeView, b: EdgeView, c: EdgeView| #[trigger] less(a, b) && #[trigger] less(b, c) implies less(a, c) by {
            if a.from != b.from && b.from != c.from {
                id_order_transitive(a.from, b.from, c.from);
                id_order_total(a.from, c.from);
                id_order_total(a.from, b.from);
            } else if a.from == b.from && b.from == c.from && a.to != b.to && b.to != c.to {
                id_order_transitive(a.to, b.to, c.to);
                id_order_total(a.to, c.to);
                id_order_total(a.to, b.to);
            }
        }
        assert forall|a: EdgeView, b: EdgeView| #[trigger] less(a, b) || less(b, a) || a == b by {
            id_order_total(a.from, b.from);
            id_order_total(a.to, b.to);
        }
    }

    fn comes_before(&self, other: &Self) -> (before: bool) {
        if !self.from.same(&other.from) {
            self.from.before(&other.from)
        } else if !self.to.same(&other.to) {
            self.to.before(&other.to)
        } else {
            self.kind == EdgeKind::Dependency && other.kind == EdgeKind::Discovery
        }
    }
}

// ---------------------------------------------------------------------------
// Paths

/// Some edge leads from `a` to `b`.
pub open spec fn linked(edges: Set<EdgeView>, a: TaskIdView, b: TaskIdView) -> bool {
    edges.contains(EdgeView { from: a, to: b, kind: EdgeKind::Dependency }) || edges.contains(
        EdgeView { from: a, to: b, kind: EdgeKind::Discovery },
    )
}

/// Each task of `path` leads to the next.
pub open spec fn is_path(edges: Set<EdgeView>, path: Seq<TaskIdView>) -> bool {
    &&& path.len() > 0
    &&& forall|i: int| 0 <= i < path.len() - 1 ==> linked(edges, #[trigger] path[i], path[i + 1])
}

/// `b` is `a` or follows from it.
pub open spec fn reaches(edges: Set<EdgeView>, a: TaskIdView, b: TaskIdView) -> bool {
    exists|path: Seq<TaskIdView>| #[trigger] is_path(edges, path) && path[0] == a && path.last() == b
}

/// Some edge lies on a way back to where it starts.
pub open spec fn has_cycle(edges: Set<EdgeView>) -> bool {
    exists|a: TaskIdView, b: TaskIdView| #[trigger] linked(edges, a, b) && reaches(edges, b, a)
}

pub proof fn reaches_itself(edges: Set<EdgeView>, a: TaskIdView)
    ensures
        reaches(edges, a, a),
{
    let path = seq![a];
    assert(is_path(edges, path));
    assert(path[0] == a && path.last() == a);
}

proof fn reaches_one_further(edges: Set<EdgeView>, a: TaskIdView, b: TaskIdView, c: TaskIdView)
    requires
        reaches(edges, a, b),
        linked(edges, b, c),
    ensures
        reaches(edges, a, c),
{
    let path = choose|path: Seq<TaskIdView>| #[trigger] is_path(edges, path) && path[0] == a && path.last() == b;
    let longer = path.push(c);
    assert forall|i: int| 0 <= i < longer.len() - 1 implies linked(edges, #[trigger] longer[i], longer[i + 1]) by {
        if i < path.len() - 1 {
            assert(linked(edges, path[i], path[i + 1]));
        }
    }
    assert(is_path(edges, longer));
    assert(longer[0] == a && longer.last() == c);
}

proof fn reaches_on(edges: Set<EdgeView>, a: TaskIdView, b: TaskIdView, path: Seq<TaskIdView>)
    requires
        reaches(edges, a, b),
        is_path(edges, path),
        path[0] == b,
    ensures
        reaches(edges, a, path.last()),
    decreases path.len(),
{
    if path.len() > 1 {
        let shorter = path.drop_last();
        assert forall|i: int| 0 <= i < shorter.len() - 1 implies linked(edges, #[trigger] shorter[i], shorter[i + 1]) by {
            assert(linked(edges, path[i], path[i + 1]));
        }
        assert(is_path(edges, shorter));
        reaches_on(edges, a, b, shorter);
        assert(linked(edges, path[path.len() - 2], path[path.len() - 1]));
        reaches_one_further(edges, a, shorter.last(), path.last());
    }
}

/// Reaching is transitive.
pub proof fn reaching_is_transitive(edges: Set<EdgeView>, a: TaskIdView, b: TaskIdView, c: TaskIdView)
    requires
        reaches(edges, a, b),
        reaches(edges, b, c),
    ensures
        reaches(edges, a, c),
{
    let path = choose|path: Seq<TaskIdView>| #[trigger] is_path(edges, path) && path[0] == b && path.last() == c;
    reaches_on(edges, a, b, path);
}

/// A path through one more edge either does not need it, or leads to its start
/// and on from its end without it.
proof fn path_through_new_edge(edges: Set<EdgeView>, new: EdgeView, path: Seq<TaskIdView>)
    requires
        is_path(edges.insert(new), path),
    ensures
        reaches(edges, path[0], path.last()) || (reaches(edges, path[0], new.from) && reaches(edges, new.to, path.last())),
    decreases path.len(),
{
    if path.len() == 1 {
        reaches_itself(edges, path[0]);
    } else {
        let wide = edges.insert(new);
        let shorter = path.drop_last();
        assert forall|i: int| 0 <= i < shorter.len() - 1 implies linked(wide, #[trigger] shorter[i], shorter[i + 1]) by {
            assert(linked(wide, path[i], path[i + 1]));
        }
        assert(is_path(wide, shorter));
        path_through_new_edge(edges, new, shorter);
        let a = path[0];
        let c = shorter.last();
        let b = path.last();
        assert(c == path[path.len() - 2]);
        assert(linked(wide, path[path.len() - 2], path[path.len() - 1]));
        if linked(edges, c, b) {
            if reaches(edges, a, c) {
                reaches_one_further(edges, a, c, b);
            } else {
                reaches_one_further(edges, new.to, c, b);
            }
        } else {
            assert(new.from == c && new.to == b);
            reaches_itself(edges, b);
        }
    }
}

/// An edge that does not close a way back makes no cycle.
pub proof fn harmless_edge_makes_no_cycle(edges: Set<EdgeView>, new: EdgeView)
    requires
        !has_cycle(edges),
        !reaches(edges, new.to, new.from),
    ensures
        !has_cycle(edges.insert(new)),
{
    let wide = edges.insert(new);
    if has_cycle(wide) {
        let (a, b) = choose|a: TaskIdView, b: TaskIdView| #[trigger] linked(wide, a, b) && reaches(wide, b, a);
        let path = choose|path: Seq<TaskIdView>| #[trigger] is_path(wide, path) && path[0] == b && path.last() == a;
        path_through_new_edge(edges, new, path);
        if linked(edges, a, b) {
            if reaches(edges, b, a) {
                assert(has_cycle(edges));
            } else {
                reaches_one_further(edges, new.to, a, b);
                reaching_is_transitive(edges, new.to, b, new.from);
            }
        } else {
            assert(new.from == a && new.to == b);
        }
    }
}

// ---------------------------------------------------------------------------
// What a snapshot says about its topology

/// The tasks, their dependencies, the dependencies on tasks that are not
/// there (from the dependent to what it lacks), and who discovered whom.
#[verifier::ext_equal]
pub struct Links {
    pub ids: Set<TaskIdView>,
    pub dependencies: Set<EdgeView>,
    pub missing: Set<EdgeView>,
    pub discoveries: Set<EdgeView>,
}

pub open spec fn has_task(tasks: Seq<TaskView>, id: TaskIdView) -> bool {
    exists|i: int| 0 <= i < tasks.len() && (#[trigger] tasks[i]).id == id
}

/// A task `dependent` lists `dependency`.
pub open spec fn depends(tasks: Seq<TaskView>, dependent: TaskIdView, dependency: TaskIdView) -> bool {
    exists|i: int| 0 <= i < tasks.len() && (#[trigger] tasks[i]).id == dependent && tasks[i].deps.contains(dependency)
}

/// A task `found` names `origin` as where it was discovered.
pub open spec fn discovered(tasks: Seq<TaskView>, found: TaskIdView, origin: TaskIdView) -> bool {
    exists|i: int| 0 <= i < tasks.len() && (#[trigger] tasks[i]).id == found && tasks[i].discovered_from == Some(origin)
}

pub open spec fn links_of(tasks: Seq<TaskView>) -> Links {
    Links {
        ids: Set::new(|id: TaskIdView| has_task(tasks, id)),
        dependencies: Set::new(
            |e: EdgeView| e.kind == EdgeKind::Dependency && depends(tasks, e.to, e.from) && has_task(tasks, e.from),
        ),
        missing: Set::new(
            |e: EdgeView| e.kind == EdgeKind::Dependency && depends(tasks, e.from, e.to) && !has_task(tasks, e.to),
        ),
        discoveries: Set::new(
            |e: EdgeView| e.kind == EdgeKind::Discovery && discovered(tasks, e.to, e.from) && has_task(tasks, e.from),
        ),
    }
}

/// The edges and the dropped discoveries after the discoveries have been
/// considered in order: one that would close a cycle is dropped.
pub open spec fn settled(dependencies: Set<EdgeView>, discoveries: Seq<EdgeView>) -> (Set<EdgeView>, Seq<EdgeView>)
    decreases discoveries.len(),
{
    if discoveries.len() == 0 {
        (dependencies, Seq::empty())
    } else {
        let (edges, dropped) = settled(dependencies, discoveries.drop_last());
        let next = discoveries.last();
        if reaches(edges, next.to, next.from) {
            (edges, dropped.push(next))
        } else {
            (edges.insert(next), dropped)
        }
    }
}

/// What is wrong with a snapshot's topology.
#[derive(Debug, PartialEq, Eq)]
pub enum Degradation {
    MissingDependency { dependent: TaskId, dependency: TaskId },
    CyclicDiscovery { from: TaskId, to: TaskId },
    CyclicDependencies,
}

pub enum DegradationView {
    MissingDependency { dependent: TaskIdView, dependency: TaskIdView },
    CyclicDiscovery { from: TaskIdView, to: TaskIdView },
    CyclicDependencies,
}

impl View for Degradation {
    type V = DegradationView;

    open spec fn view(&self) -> DegradationView {
        match self {
            Degradation::MissingDependency { dependent, dependency } => DegradationView::MissingDependency {
                dependent: dependent@,
                dependency: dependency@,
            },
            Degradation::CyclicDiscovery { from, to } => DegradationView::CyclicDiscovery { from: from@, to: to@ },
            Degradation::CyclicDependencies => DegradationView::CyclicDependencies,
        }
    }
}

/// Everything about a snapshot that its layout depends on.
#[verifier::ext_equal]
pub struct TopologyView {
    pub ids: Seq<TaskIdView>,
    pub edges: Seq<EdgeView>,
    pub degradations: Seq<DegradationView>,
    pub dependency_cyclic: bool,
}

pub open spec fn missing_notes(missing: Seq<EdgeView>) -> Seq<DegradationView> {
    Seq::new(
        missing.len(),
        |i: int| DegradationView::MissingDependency { dependent: missing[i].from, dependency: missing[i].to },
    )
}

pub open spec fn dropped_notes(dropped: Seq<EdgeView>) -> Seq<DegradationView> {
    Seq::new(dropped.len(), |i: int| DegradationView::CyclicDiscovery { from: dropped[i].from, to: dropped[i].to })
}

pub open spec fn cycle_notes(cyclic: bool) -> Seq<DegradationView> {
    if cyclic {
        seq![DegradationView::CyclicDependencies]
    } else {
        Seq::empty()
    }
}

/// The topology that these links make.
pub open spec fn topology_of(links: Links) -> TopologyView {
    let less = GraphEdge::less();
    let (edges, dropped) = settled(links.dependencies, in_order(links.discoveries, less));
    let cyclic = has_cycle(links.dependencies);
    TopologyView {
        ids: in_order(links.ids, TaskId::less()),
        edges: in_order(edges, less),
        degradations: missing_notes(in_order(links.missing, less)) + cycle_notes(cyclic) + dropped_notes(dropped),
        dependency_cyclic: cyclic,
    }
}

/// The lists of the topology hold exactly what the links say, in order.
pub open spec fn are_listed(links: Links) -> bool {
    let less = GraphEdge::less();
    let discoveries = in_order(links.discoveries, less);
    let topology = topology_of(links);
    &&& lists(topology.ids, links.ids, TaskId::less())
    &&& lists(in_order(links.missing, less), links.missing, less)
    &&& lists(discoveries, links.discoveries, less)
    &&& lists(topology.edges, settled(links.dependencies, discoveries).0, less)
}

// ---------------------------------------------------------------------------
// Laws of the topology

/// Discoveries never close a cycle: where the dependencies have none, the
/// whole graph has none.
pub proof fn discoveries_close_no_cycle(dependencies: Set<EdgeView>, discoveries: Seq<EdgeView>)
    requires
        !has_cycle(dependencies),
    ensures
        !has_cycle(settled(dependencies, discoveries).0),
    decreases discoveries.len(),
{
    if discoveries.len() > 0 {
        discoveries_close_no_cycle(dependencies, discoveries.drop_last());
        let (edges, dropped) = settled(dependencies, discoveries.drop_last());
        let next = discoveries.last();
        if !reaches(edges, next.to, next.from) {
            harmless_edge_makes_no_cycle(edges, next);
        }
    }
}

/// No dependency is ever dropped, and nothing is added but discoveries.
pub proof fn dependencies_are_kept(dependencies: Set<EdgeView>, discoveries: Seq<EdgeView>)
    ensures
        dependencies.subset_of(settled(dependencies, discoveries).0),
        forall|e: EdgeView| #[trigger] settled(dependencies, discoveries).0.contains(e) ==> dependencies.contains(e)
            || discoveries.contains(e),
    decreases discoveries.len(),
{
    if discoveries.len() > 0 {
        dependencies_are_kept(dependencies, discoveries.drop_last());
        let before = settled(dependencies, discoveries.drop_last()).0;
        assert forall|e: EdgeView| #[trigger] settled(dependencies, discoveries).0.contains(e) implies dependencies.contains(e)
            || discoveries.contains(e) by {
            if before.contains(e) {
                if discoveries.drop_last().contains(e) {
                    let k = choose|k: int| 0 <= k < discoveries.drop_last().len() && discoveries.drop_last()[k] == e;
                    assert(discoveries[k] == e);
                }
            } else {
                assert(e == discoveries.last());
                assert(discoveries[discoveries.len() - 1] == e);
            }
        }
    }
}

/// Both tasks say the same about the topology: the order of their dependencies
/// and how often each is listed do not count.
pub open spec fn alike(a: TaskView, b: TaskView) -> bool {
    &&& a.id == b.id
    &&& a.discovered_from == b.discovered_from
    &&& forall|dep: TaskIdView| #[trigger] a.deps.contains(dep) <==> b.deps.contains(dep)
}

/// Every task of `a` has one like it in `b`.
pub open spec fn within(a: Seq<TaskView>, b: Seq<TaskView>) -> bool {
    forall|i: int| 0 <= i < a.len() ==> has_alike(b, #[trigger] a[i])
}

pub open spec fn has_alike(tasks: Seq<TaskView>, task: TaskView) -> bool {
    exists|j: int| 0 <= j < tasks.len() && alike(task, #[trigger] tasks[j])
}

proof fn links_within(a: Seq<TaskView>, b: Seq<TaskView>)
    requires
        within(a, b),
    ensures
        forall|id: TaskIdView| has_task(a, id) ==> has_task(b, id),
        forall|x: TaskIdView, y: TaskIdView| depends(a, x, y) ==> depends(b, x, y),
        forall|x: TaskIdView, y: TaskIdView| discovered(a, x, y) ==> discovered(b, x, y),
{
    assert forall|id: TaskIdView| has_task(a, id) implies has_task(b, id) by {
        let i = choose|i: int| 0 <= i < a.len() && (#[trigger] a[i]).id == id;
        assert(has_alike(b, a[i]));
        let j = choose|j: int| 0 <= j < b.len() && alike(a[i], #[trigger] b[j]);
        assert(b[j].id == id);
    }
    assert forall|x: TaskIdView, y: TaskIdView| depends(a, x, y) implies depends(b, x, y) by {
        let i = choose|i: int| 0 <= i < a.len() && (#[trigger] a[i]).id == x && a[i].deps.contains(y);
        assert(has_alike(b, a[i]));
        let j = choose|j: int| 0 <= j < b.len() && alike(a[i], #[trigger] b[j]);
        assert(b[j].id == x && b[j].deps.contains(y));
    }
    assert forall|x: TaskIdView, y: TaskIdView| discovered(a, x, y) implies discovered(b, x, y) by {
        let i = choose|i: int| 0 <= i < a.len() && (#[trigger] a[i]).id == x && a[i].discovered_from == Some(y);
        assert(has_alike(b, a[i]));
        let j = choose|j: int| 0 <= j < b.len() && alike(a[i], #[trigger] b[j]);
        assert(b[j].id == x && b[j].discovered_from == Some(y));
    }
}

/// Order and repetition do not matter, neither of the tasks nor within the
/// dependencies of a task: snapshots whose tasks say the same have one
/// topology.
pub proof fn order_and_repetition_do_not_matter(a: Seq<TaskView>, b: Seq<TaskView>)
    requires
        within(a, b),
        within(b, a),
    ensures
        topology_of(links_of(a)) == topology_of(links_of(b)),
{
    links_within(a, b);
    links_within(b, a);
    assert(links_of(a).ids =~= links_of(b).ids);
    assert(links_of(a).dependencies =~= links_of(b).dependencies);
    assert(links_of(a).missing =~= links_of(b).missing);
    assert(links_of(a).discoveries =~= links_of(b).discoveries);
}

/// Only what tasks there are, what they depend on and who discovered them
/// matters: snapshots that agree on these have one topology, whatever else
/// about their tasks differs.
pub proof fn display_changes_keep_the_topology(a: Seq<TaskView>, b: Seq<TaskView>)
    requires
        a.len() == b.len(),
        forall|i: int| 0 <= i < a.len() ==> (#[trigger] a[i]).id == b[i].id && a[i].deps == b[i].deps && a[i].discovered_from == b[i].discovered_from,
    ensures
        topology_of(links_of(a)) == topology_of(links_of(b)),
{
    assert forall|i: int| 0 <= i < a.len() implies has_alike(b, #[trigger] a[i]) by {
        assert(alike(a[i], b[i]));
    }
    assert forall|i: int| 0 <= i < b.len() implies has_alike(a, #[trigger] b[i]) by {
        assert(alike(b[i], a[i]));
    }
    order_and_repetition_do_not_matter(a, b);
}

/// The order of the tasks in a snapshot does not matter.
pub proof fn task_order_does_not_matter(a: Seq<TaskView>, b: Seq<TaskView>)
    requires
        a.to_multiset() == b.to_multiset(),
    ensures
        topology_of(links_of(a)) == topology_of(links_of(b)),
{
    same_multiset_within(a, b);
    same_multiset_within(b, a);
    order_and_repetition_do_not_matter(a, b);
}

proof fn same_multiset_within(a: Seq<TaskView>, b: Seq<TaskView>)
    requires
        a.to_multiset() == b.to_multiset(),
    ensures
        within(a, b),
{
    a.to_multiset_ensures();
    b.to_multiset_ensures();
    assert forall|i: int| 0 <= i < a.len() implies has_alike(b, #[trigger] a[i]) by {
        assert(a.contains(a[i]));
        assert(a.to_multiset().count(a[i]) > 0);
        assert(b.contains(a[i]));
        let j = choose|j: int| 0 <= j < b.len() && b[j] == a[i];
        assert(alike(a[i], b[j]));
    }
}

// ---------------------------------------------------------------------------
// The stored graph

/// The stored graph has an arc between two slots exactly where there is an
/// edge between the tasks in them.
pub open spec fn mirrors(edges: Set<EdgeView>, arcs: Multiset<(usize, usize, EdgeKind)>, ids: Seq<TaskIdView>, slots: Seq<usize>) -> bool {
    &&& ids.len() == slots.len()
    &&& ids.no_duplicates()
    &&& slots.no_duplicates()
    &&& forall|e: EdgeView| #[trigger] edges.contains(e) ==> ids.contains(e.from) && ids.contains(e.to)
    &&& forall|a: usize, b: usize, k: EdgeKind| #[trigger] arcs.contains((a, b, k)) ==> slots.contains(a) && slots.contains(b)
    &&& forall|i: int, j: int, k: EdgeKind|
        0 <= i < ids.len() && 0 <= j < ids.len() ==> (arcs.contains((#[trigger] slots[i], #[trigger] slots[j], k)) <==> #[trigger] edges.contains(
            EdgeView { from: ids[i], to: ids[j], kind: k },
        ))
}

proof fn slot_path_to_ids(edges: Set<EdgeView>, arcs: Multiset<(usize, usize, EdgeKind)>, ids: Seq<TaskIdView>, slots: Seq<usize>, i: int, j: int)
    requires
        mirrors(edges, arcs, ids, slots),
        0 <= i < ids.len(),
        0 <= j < ids.len(),
        slot_reaches(arcs, slots[i], slots[j]),
    ensures
        reaches(edges, ids[i], ids[j]),
{
    let path = choose|path: Seq<usize>| #[trigger] is_arc_path(arcs, path) && path[0] == slots[i] && path.last() == slots[j];
    assert forall|k: int| 0 <= k < path.len() implies slots.contains(#[trigger] path[k]) by {
        if k > 0 {
            assert(arc_between(arcs, path[k - 1], path[k - 1 + 1]));
        }
    }
    let named = Seq::new(path.len(), |k: int| ids[slots.index_of(path[k])]);
    assert forall|k: int| 0 <= k < named.len() - 1 implies linked(edges, #[trigger] named[k], named[k + 1]) by {
        assert(slots.contains(path[k]));
        assert(slots.contains(path[k + 1]));
        assert(arc_between(arcs, path[k], path[k + 1]));
        let x = slots.index_of(path[k]);
        let y = slots.index_of(path[k + 1]);
        assert(slots[x] == path[k] && slots[y] == path[k + 1]);
        assert(arcs.contains((slots[x], slots[y], EdgeKind::Dependency)) ==> edges.contains(EdgeView { from: ids[x], to: ids[y], kind: EdgeKind::Dependency }));
        assert(arcs.contains((slots[x], slots[y], EdgeKind::Discovery)) ==> edges.contains(EdgeView { from: ids[x], to: ids[y], kind: EdgeKind::Discovery }));
    }
    assert(is_path(edges, named));
    assert(slots.contains(path[0]));
    assert(slots.contains(path[path.len() - 1]));
    assert(slots.index_of(slots[i]) == i);
    assert(slots.index_of(slots[j]) == j);
    assert(named[0] == ids[i] && named.last() == ids[j]);
}

proof fn id_path_to_slots(edges: Set<EdgeView>, arcs: Multiset<(usize, usize, EdgeKind)>, ids: Seq<TaskIdView>, slots: Seq<usize>, i: int, j: int)
    requires
        mirrors(edges, arcs, ids, slots),
        0 <= i < ids.len(),
        0 <= j < ids.len(),
        reaches(edges, ids[i], ids[j]),
    ensures
        slot_reaches(arcs, slots[i], slots[j]),
{
    let path = choose|path: Seq<TaskIdView>| #[trigger] is_path(edges, path) && path[0] == ids[i] && path.last() == ids[j];
    assert forall|k: int| 0 <= k < path.len() implies ids.contains(#[trigger] path[k]) by {
        if k > 0 {
            assert(linked(edges, path[k - 1], path[k - 1 + 1]));
        }
    }
    let stored = Seq::new(path.len(), |k: int| slots[ids.index_of(path[k])]);
    assert forall|k: int| 0 <= k < stored.len() - 1 implies arc_between(arcs, #[trigger] stored[k], stored[k + 1]) by {
        assert(ids.contains(path[k]));
        assert(ids.contains(path[k + 1]));
        assert(linked(edges, path[k], path[k + 1]));
        let x = ids.index_of(path[k]);
        let y = ids.index_of(path[k + 1]);
        assert(ids[x] == path[k] && ids[y] == path[k + 1]);
        assert(arcs.contains((slots[x], slots[y], EdgeKind::Dependency)) <==> edges.contains(EdgeView { from: ids[x], to: ids[y], kind: EdgeKind::Dependency }));
        assert(arcs.contains((slots[x], slots[y], EdgeKind::Discovery)) <==> edges.contains(EdgeView { from: ids[x], to: ids[y], kind: EdgeKind::Discovery }));
    }
    assert(is_arc_path(arcs, stored));
    assert(ids.contains(path[0]));
    assert(ids.contains(path[path.len() - 1]));
    assert(ids.index_of(ids[i]) == i);
    assert(ids.index_of(ids[j]) == j);
    assert(stored[0] == slots[i] && stored.last() == slots[j]);
}

proof fn cycles_correspond(edges: Set<EdgeView>, arcs: Multiset<(usize, usize, EdgeKind)>, ids: Seq<TaskIdView>, slots: Seq<usize>)
    requires
        mirrors(edges, arcs, ids, slots),
    ensures
        arcs_have_cycle(arcs) == has_cycle(edges),
{
    if arcs_have_cycle(arcs) {
        let (a, b) = choose|a: usize, b: usize| #[trigger] arc_between(arcs, a, b) && slot_reaches(arcs, b, a);
        assert(slots.contains(a) && slots.contains(b)) by {
            assert(arcs.contains((a, b, EdgeKind::Dependency)) || arcs.contains((a, b, EdgeKind::Discovery)));
        }
        let x = slots.index_of(a);
        let y = slots.index_of(b);
        slot_path_to_ids(edges, arcs, ids, slots, y, x);
        assert(arcs.contains((slots[x], slots[y], EdgeKind::Dependency)) <==> edges.contains(EdgeView { from: ids[x], to: ids[y], kind: EdgeKind::Dependency }));
        assert(arcs.contains((slots[x], slots[y], EdgeKind::Discovery)) <==> edges.contains(EdgeView { from: ids[x], to: ids[y], kind: EdgeKind::Discovery }));
        assert(linked(edges, ids[x], ids[y]));
    }
    if has_cycle(edges) {
        let (a, b) = choose|a: TaskIdView, b: TaskIdView| #[trigger] linked(edges, a, b) && reaches(edges, b, a);
        let x = ids.index_of(a);
        let y = ids.index_of(b);
        assert(ids.contains(a) && ids.contains(b));
        id_path_to_slots(edges, arcs, ids, slots, y, x);
        assert(arcs.contains((slots[x], slots[y], EdgeKind::Dependency)) <==> edges.contains(EdgeView { from: ids[x], to: ids[y], kind: EdgeKind::Dependency }));
        assert(arcs.contains((slots[x], slots[y], EdgeKind::Discovery)) <==> edges.contains(EdgeView { from: ids[x], to: ids[y], kind: EdgeKind::Discovery }));
        assert(arc_between(arcs, slots[x], slots[y]));
    }
}

proof fn one_more_edge(edges: Set<EdgeView>, arcs: Multiset<(usize, usize, EdgeKind)>, ids: Seq<TaskIdView>, slots: Seq<usize>, i: int, j: int, kind: EdgeKind)
    requires
        mirrors(edges, arcs, ids, slots),
        0 <= i < ids.len(),
        0 <= j < ids.len(),
    ensures
        mirrors(
            edges.insert(EdgeView { from: ids[i], to: ids[j], kind }),
            arcs.insert((slots[i], slots[j], kind)),
            ids,
            slots,
        ),
{
    let e = EdgeView { from: ids[i], to: ids[j], kind };
    let more = arcs.insert((slots[i], slots[j], kind));
    assert(slots.contains(slots[i]) && slots.contains(slots[j]));
    assert forall|a: usize, b: usize, k: EdgeKind| #[trigger] more.contains((a, b, k)) implies slots.contains(a) && slots.contains(b) by {
        if (a, b, k) != (slots[i], slots[j], kind) {
            assert(arcs.contains((a, b, k)));
        }
    }
    assert forall|x: int, y: int, k: EdgeKind| 0 <= x < ids.len() && 0 <= y < ids.len() implies (more.contains(
        (#[trigger] slots[x], #[trigger] slots[y], k),
    ) <==> #[trigger] edges.insert(e).contains(EdgeView { from: ids[x], to: ids[y], kind: k })) by {
        assert(arcs.contains((slots[x], slots[y], k)) <==> edges.contains(EdgeView { from: ids[x], to: ids[y], kind: k }));
    }
}

// ---------------------------------------------------------------------------
// Building the model

/// How many nodes and edges a snapshot can come to: one node and one discovery
/// per task, and its dependencies.
pub open spec fn link_count(tasks: Seq<TaskView>) -> nat
    decreases tasks.len(),
{
    if tasks.len() == 0 {
        0
    } else {
        link_count(tasks.drop_last()) + 1 + tasks.last().deps.len()
    }
}

proof fn link_count_grows(tasks: Seq<TaskView>, i: int)
    requires
        0 <= i <= tasks.len(),
    ensures
        link_count(tasks.take(i)) <= link_count(tasks),
        i <= link_count(tasks.take(i)),
    decreases tasks.len(),
{
    if i == tasks.len() {
        assert(tasks.take(i) =~= tasks);
        if i > 0 {
            link_count_grows(tasks.drop_last(), i - 1);
            assert(tasks.drop_last().take(i - 1) =~= tasks.drop_last());
        }
    } else {
        link_count_grows(tasks.drop_last(), i);
        assert(tasks.drop_last().take(i) =~= tasks.take(i));
    }
}

/// The first task of that id.
pub open spec fn is_first_task(tasks: Seq<TaskView>, id: TaskIdView, at: int) -> bool {
    &&& 0 <= at < tasks.len()
    &&& tasks[at].id == id
    &&& forall|i: int| 0 <= i < at ==> (#[trigger] tasks[i]).id != id
}

/// `task` is the first one of that id.
pub open spec fn is_first_of(tasks: Seq<TaskView>, id: TaskIdView, task: TaskView) -> bool {
    exists|at: int| #[trigger] is_first_task(tasks, id, at) && task == tasks[at]
}

/// The slots hold the first task of each id, and there are no other slots.
pub open spec fn stored_tasks(nodes: Map<usize, TaskView>, slots: Seq<usize>, ids: Seq<TaskIdView>, tasks: Seq<TaskView>) -> bool {
    &&& forall|slot: usize| #[trigger] nodes.dom().contains(slot) <==> slots.contains(slot)
    &&& forall|k: int| 0 <= k < slots.len() ==> is_first_of(tasks, ids[k], nodes[#[trigger] slots[k]])
}

/// The ids of all tasks in order, and where each one occurs first.
fn collect_ids(tasks: &Vec<SnapshotTask>) -> (r: (Vec<TaskId>, Vec<usize>))
    ensures
        lists(views(r.0@), links_of(views(tasks@)).ids, TaskId::less()),
        r.0@.len() == r.1@.len(),
        r.0@.len() <= tasks@.len(),
        forall|k: int| 0 <= k < r.1@.len() ==> is_first_task(views(tasks@), r.0@[k]@, #[trigger] r.1@[k] as int),
{
    let ghost all = views(tasks@);
    let mut ids: Vec<TaskId> = Vec::new();
    let mut firsts: Vec<usize> = Vec::new();
    let mut i: usize = 0;
    assert(views(ids@) =~= Seq::<TaskIdView>::empty());
    while i < tasks.len()
        invariant
            i <= tasks@.len(),
            all == views(tasks@),
            ascending(views(ids@), TaskId::less()),
            forall|v: TaskIdView| #[trigger] views(ids@).contains(v) <==> has_task(all.take(i as int), v),
            ids@.len() == firsts@.len(),
            ids@.len() <= i,
            forall|k: int| 0 <= k < firsts@.len() ==> is_first_task(all, ids@[k]@, #[trigger] firsts@[k] as int) && firsts@[k] < i,
        decreases tasks@.len() - i,
    {
        let id = tasks[i].id.clone();
        let ghost before = views(ids@);
        let ghost old_firsts = firsts@;
        let ghost old_ids = ids@;
        let (at, found) = find_place(&ids, &id);
        if !found {
            proof {
                assert forall|k: int| 0 <= k < at implies TaskId::less()(#[trigger] before[k], id@) by {
                    assert(before[k] == ids@[k]@);
                }
                assert forall|k: int| at <= k < before.len() implies TaskId::less()(id@, #[trigger] before[k]) by {
                    assert(before[k] == ids@[k]@);
                }
                crate::sorted::insertion_keeps_order(before, at as int, id@, TaskId::less());
            }
            ids.insert(at, id);
            firsts.insert(at, i);
            proof {
                assert(views(ids@) =~= before.insert(at as int, all[i as int].id));
                assert forall|k: int| 0 <= k < firsts@.len() implies is_first_task(all, ids@[k]@, #[trigger] firsts@[k] as int) && firsts@[k] < i + 1 by {
                    if k < at {
                        assert(firsts@[k] == old_firsts[k]);
                        assert(ids@[k] == old_ids[k]);
                    } else if k > at {
                        assert(firsts@[k] == old_firsts[k - 1]);
                        assert(ids@[k] == old_ids[k - 1]);
                    } else {
                        assert forall|j: int| 0 <= j < i implies (#[trigger] all[j]).id != all[i as int].id by {
                            if all[j].id == all[i as int].id {
                                assert(all.take(i as int)[j].id == all[i as int].id);
                                assert(has_task(all.take(i as int), all[i as int].id));
                            }
                        }
                    }
                }
            }
        }
        proof {
            assert forall|v: TaskIdView| #[trigger] views(ids@).contains(v) <==> has_task(all.take(i + 1), v) by {
                has_task_step(all, i as int, v);
            }
        }
        i += 1;
    }
    assert(all.take(i as int) =~= all);
    (ids, firsts)
}

proof fn has_task_step(tasks: Seq<TaskView>, i: int, id: TaskIdView)
    requires
        0 <= i < tasks.len(),
    ensures
        has_task(tasks.take(i + 1), id) <==> has_task(tasks.take(i), id) || tasks[i].id == id,
{
    if has_task(tasks.take(i + 1), id) {
        let k = choose|k: int| 0 <= k < i + 1 && (#[trigger] tasks.take(i + 1)[k]).id == id;
        if k < i {
            assert(tasks.take(i)[k].id == id);
        }
    }
    if has_task(tasks.take(i), id) {
        let k = choose|k: int| 0 <= k < i && (#[trigger] tasks.take(i)[k]).id == id;
        assert(tasks.take(i + 1)[k].id == id);
    }
    if tasks[i].id == id {
        assert(tasks.take(i + 1)[i].id == id);
    }
}

proof fn depends_step(tasks: Seq<TaskView>, i: int, x: TaskIdView, y: TaskIdView)
    requires
        0 <= i < tasks.len(),
    ensures
        depends(tasks.take(i + 1), x, y) <==> depends(tasks.take(i), x, y) || (tasks[i].id == x && tasks[i].deps.contains(y)),
{
    if depends(tasks.take(i + 1), x, y) {
        let k = choose|k: int| 0 <= k < i + 1 && (#[trigger] tasks.take(i + 1)[k]).id == x && tasks.take(i + 1)[k].deps.contains(y);
        if k < i {
            assert(tasks.take(i)[k].id == x && tasks.take(i)[k].deps.contains(y));
        }
    }
    if depends(tasks.take(i), x, y) {
        let k = choose|k: int| 0 <= k < i && (#[trigger] tasks.take(i)[k]).id == x && tasks.take(i)[k].deps.contains(y);
        assert(tasks.take(i + 1)[k].id == x && tasks.take(i + 1)[k].deps.contains(y));
    }
    if tasks[i].id == x && tasks[i].deps.contains(y) {
        assert(tasks.take(i + 1)[i].id == x && tasks.take(i + 1)[i].deps.contains(y));
    }
}

proof fn discovered_step(tasks: Seq<TaskView>, i: int, x: TaskIdView, y: TaskIdView)
    requires
        0 <= i < tasks.len(),
    ensures
        discovered(tasks.take(i + 1), x, y) <==> discovered(tasks.take(i), x, y) || (tasks[i].id == x && tasks[i].discovered_from == Some(y)),
{
    if discovered(tasks.take(i + 1), x, y) {
        let k = choose|k: int| 0 <= k < i + 1 && (#[trigger] tasks.take(i + 1)[k]).id == x && tasks.take(i + 1)[k].discovered_from == Some(y);
        if k < i {
            assert(tasks.take(i)[k].id == x && tasks.take(i)[k].discovered_from == Some(y));
        }
    }
    if discovered(tasks.take(i), x, y) {
        let k = choose|k: int| 0 <= k < i && (#[trigger] tasks.take(i)[k]).id == x && tasks.take(i)[k].discovered_from == Some(y);
        assert(tasks.take(i + 1)[k].id == x && tasks.take(i + 1)[k].discovered_from == Some(y));
    }
    if tasks[i].id == x && tasks[i].discovered_from == Some(y) {
        assert(tasks.take(i + 1)[i].id == x && tasks.take(i + 1)[i].discovered_from == Some(y));
    }
}

/// The dependencies of one task, added to those of the tasks before it.
fn add_dependencies(task: &SnapshotTask, ids: &Vec<TaskId>, present: &mut Vec<GraphEdge>, missing: &mut Vec<GraphEdge>)
    requires
        ascending(views(ids@), TaskId::less()),
        ascending(views(old(present)@), GraphEdge::less()),
        ascending(views(old(missing)@), GraphEdge::less()),
    ensures
        ascending(views(final(present)@), GraphEdge::less()),
        ascending(views(final(missing)@), GraphEdge::less()),
        final(present)@.len() <= old(present)@.len() + task.deps@.len(),
        forall|e: EdgeView| #[trigger] views(final(present)@).contains(e) <==> views(old(present)@).contains(e) || (e.kind
            == EdgeKind::Dependency && e.to == task.id@ && views(task.deps@).contains(e.from) && views(ids@).contains(e.from)),
        forall|e: EdgeView| #[trigger] views(final(missing)@).contains(e) <==> views(old(missing)@).contains(e) || (e.kind
            == EdgeKind::Dependency && e.from == task.id@ && views(task.deps@).contains(e.to) && !views(ids@).contains(e.to)),
{
    let ghost start_present = views(present@);
    let ghost start_missing = views(missing@);
    let ghost count = present@.len();
    let ghost deps = views(task.deps@);
    let mut j: usize = 0;
    while j < task.deps.len()
        invariant
            j <= task.deps@.len(),
            deps == views(task.deps@),
            ascending(views(ids@), TaskId::less()),
            ascending(views(present@), GraphEdge::less()),
            ascending(views(missing@), GraphEdge::less()),
            present@.len() <= count + j,
            forall|e: EdgeView| #[trigger] views(present@).contains(e) <==> start_present.contains(e) || (e.kind
                == EdgeKind::Dependency && e.to == task.id@ && deps.take(j as int).contains(e.from) && views(ids@).contains(e.from)),
            forall|e: EdgeView| #[trigger] views(missing@).contains(e) <==> start_missing.contains(e) || (e.kind
                == EdgeKind::Dependency && e.from == task.id@ && deps.take(j as int).contains(e.to) && !views(ids@).contains(e.to)),
        decreases task.deps@.len() - j,
    {
        let ghost taken = deps.take(j as int);
        proof {
            assert(deps.take(j + 1) =~= taken.push(deps[j as int]));
            assert forall|v: TaskIdView| #[trigger] deps.take(j + 1).contains(v) <==> taken.contains(v) || v == deps[j as int] by {
                if taken.contains(v) {
                    let k = choose|k: int| 0 <= k < taken.len() && taken[k] == v;
                    assert(deps.take(j + 1)[k] == v);
                }
                if v == deps[j as int] {
                    assert(deps.take(j + 1)[j as int] == v);
                }
            }
            assert(deps[j as int] == task.deps@[j as int]@);
        }
        let (_, known) = find_place(ids, &task.deps[j]);
        if known {
            let edge = GraphEdge { from: task.deps[j].clone(), to: task.id.clone(), kind: EdgeKind::Dependency };
            insert_ordered(present, edge);
        } else {
            let edge = GraphEdge { from: task.id.clone(), to: task.deps[j].clone(), kind: EdgeKind::Dependency };
            insert_ordered(missing, edge);
        }
        j += 1;
    }
    assert(deps.take(j as int) =~= deps);
}

/// All dependencies, those on known tasks and those on others.
fn collect_dependencies(tasks: &Vec<SnapshotTask>, ids: &Vec<TaskId>) -> (r: (Vec<GraphEdge>, Vec<GraphEdge>))
    requires
        lists(views(ids@), links_of(views(tasks@)).ids, TaskId::less()),
    ensures
        lists(views(r.0@), links_of(views(tasks@)).dependencies, GraphEdge::less()),
        lists(views(r.1@), links_of(views(tasks@)).missing, GraphEdge::less()),
        r.0@.len() + tasks@.len() <= link_count(views(tasks@)),
{
    let ghost all = views(tasks@);
    let mut present: Vec<GraphEdge> = Vec::new();
    let mut missing: Vec<GraphEdge> = Vec::new();
    let mut i: usize = 0;
    assert(views(present@) =~= Seq::<EdgeView>::empty());
    assert(views(missing@) =~= Seq::<EdgeView>::empty());
    while i < tasks.len()
        invariant
            i <= tasks@.len(),
            all == views(tasks@),
            ascending(views(ids@), TaskId::less()),
            ascending(views(present@), GraphEdge::less()),
            ascending(views(missing@), GraphEdge::less()),
            present@.len() + i <= link_count(all.take(i as int)),
            forall|e: EdgeView| #[trigger] views(present@).contains(e) <==> e.kind == EdgeKind::Dependency && depends(
                all.take(i as int),
                e.to,
                e.from,
            ) && views(ids@).contains(e.from),
            forall|e: EdgeView| #[trigger] views(missing@).contains(e) <==> e.kind == EdgeKind::Dependency && depends(
                all.take(i as int),
                e.from,
                e.to,
            ) && !views(ids@).contains(e.to),
        decreases tasks@.len() - i,
    {
        let ghost before_present = views(present@);
        let ghost before_missing = views(missing@);
        add_dependencies(&tasks[i], ids, &mut present, &mut missing);
        proof {
            let task = all[i as int];
            assert(task == tasks@[i as int]@);
            assert(all.take(i + 1).drop_last() =~= all.take(i as int));
            assert(all.take(i + 1).last() == task);
            assert forall|e: EdgeView| #[trigger] views(present@).contains(e) <==> e.kind == EdgeKind::Dependency && depends(
                all.take(i + 1),
                e.to,
                e.from,
            ) && views(ids@).contains(e.from) by {
                depends_step(all, i as int, e.to, e.from);
            }
            assert forall|e: EdgeView| #[trigger] views(missing@).contains(e) <==> e.kind == EdgeKind::Dependency && depends(
                all.take(i + 1),
                e.from,
                e.to,
            ) && !views(ids@).contains(e.to) by {
                depends_step(all, i as int, e.from, e.to);
            }
        }
        i += 1;
    }
    assert(all.take(i as int) =~= all);
    (present, missing)
}

/// All discoveries of tasks by known tasks.
fn collect_discoveries(tasks: &Vec<SnapshotTask>, ids: &Vec<TaskId>) -> (r: Vec<GraphEdge>)
    requires
        lists(views(ids@), links_of(views(tasks@)).ids, TaskId::less()),
    ensures
        lists(views(r@), links_of(views(tasks@)).discoveries, GraphEdge::less()),
        r@.len() <= tasks@.len(),
{
    let ghost all = views(tasks@);
    let mut list: Vec<GraphEdge> = Vec::new();
    let mut i: usize = 0;
    assert(views(list@) =~= Seq::<EdgeView>::empty());
    while i < tasks.len()
        invariant
            i <= tasks@.len(),
            all == views(tasks@),
            lists(views(ids@), links_of(all).ids, TaskId::less()),
            ascending(views(list@), GraphEdge::less()),
            list@.len() <= i,
            forall|e: EdgeView| #[trigger] views(list@).contains(e) <==> e.kind == EdgeKind::Discovery && discovered(
                all.take(i as int),
                e.to,
                e.from,
            ) && has_task(all, e.from),
        decreases tasks@.len() - i,
    {
        let ghost before = views(list@);
        match &tasks[i].discovered_from {
            Some(origin) => {
                let (_, known) = find_place(ids, origin);
                if known {
                    let edge = GraphEdge { from: origin.clone(), to: tasks[i].id.clone(), kind: EdgeKind::Discovery };
                    insert_ordered(&mut list, edge);
                }
            },
            None => {},
        }
        proof {
            assert(all[i as int] == tasks@[i as int]@);
            assert forall|e: EdgeView| #[trigger] views(list@).contains(e) <==> e.kind == EdgeKind::Discovery && discovered(
                all.take(i + 1),
                e.to,
                e.from,
            ) && has_task(all, e.from) by {
                discovered_step(all, i as int, e.to, e.from);
                assert(views(ids@).contains(e.from) <==> links_of(all).ids.contains(e.from));
            }
        }
        i += 1;
    }
    assert(all.take(i as int) =~= all);
    list
}

/// A graph with one node per id, holding the first task of that id.
fn store_nodes(tasks: &Vec<SnapshotTask>, firsts: &Vec<usize>) -> (r: (StableDiGraph<SnapshotTask, EdgeKind>, Vec<usize>))
    requires
        firsts@.len() <= u32::MAX,
        forall|k: int| 0 <= k < firsts@.len() ==> #[trigger] firsts@[k] < tasks@.len(),
    ensures
        graph_arcs(r.0) == no_arcs(),
        r.1@.len() == firsts@.len(),
        r.1@.no_duplicates(),
        forall|slot: usize| #[trigger] graph_nodes(r.0).dom().contains(slot) <==> r.1@.contains(slot),
        forall|k: int| 0 <= k < r.1@.len() ==> graph_nodes(r.0)[#[trigger] r.1@[k]] == tasks@[firsts@[k] as int]@,
{
    let mut graph = new_graph();
    let mut slots: Vec<usize> = Vec::new();
    let mut i: usize = 0;
    assert(graph_nodes(graph).dom() =~= slots@.to_set());
    while i < firsts.len()
        invariant
            i <= firsts@.len() <= u32::MAX,
            forall|k: int| 0 <= k < firsts@.len() ==> #[trigger] firsts@[k] < tasks@.len(),
            slots@.len() == i,
            slots@.no_duplicates(),
            graph_arcs(graph) == no_arcs(),
            graph_nodes(graph).dom() == slots@.to_set(),
            forall|k: int| 0 <= k < slots@.len() ==> graph_nodes(graph)[#[trigger] slots@[k]] == tasks@[firsts@[k] as int]@,
        decreases firsts@.len() - i,
    {
        let ghost before = slots@;
        let ghost nodes = graph_nodes(graph);
        proof {
            slots@.unique_seq_to_set();
            vstd::seq_lib::seq_to_set_is_finite(slots@);
        }
        let task = tasks[firsts[i]].clone();
        let slot = add_node(&mut graph, task);
        proof {
            assert(!before.to_set().contains(slot));
            assert(!before.contains(slot));
        }
        slots.push(slot);
        proof {
            assert(graph_nodes(graph).dom() =~= slots@.to_set()) by {
                assert forall|s: usize| graph_nodes(graph).dom().contains(s) <==> slots@.to_set().contains(s) by {
                    if before.contains(s) {
                        let k = choose|k: int| 0 <= k < before.len() && before[k] == s;
                        assert(slots@[k] == s);
                    }
                    if s == slot {
                        assert(slots@[i as int] == s);
                    }
                    if slots@.contains(s) && s != slot {
                        let k = choose|k: int| 0 <= k < slots@.len() && slots@[k] == s;
                        assert(before[k] == s);
                    }
                    assert(nodes.dom().contains(s) <==> before.to_set().contains(s));
                }
            }
            assert forall|k: int| 0 <= k < slots@.len() implies graph_nodes(graph)[#[trigger] slots@[k]] == tasks@[firsts@[k] as int]@ by {
                if k < i {
                    assert(slots@[k] == before[k]);
                    assert(before.contains(before[k]));
                }
            }
        }
        i += 1;
    }
    proof {
        assert forall|slot: usize| #[trigger] graph_nodes(graph).dom().contains(slot) <==> slots@.contains(slot) by {
            assert(slots@.to_set().contains(slot) <==> slots@.contains(slot));
        }
    }
    (graph, slots)
}

proof fn ascending_has_no_duplicates<V>(list: Seq<V>, less: spec_fn(V, V) -> bool)
    requires
        ascending(list, less),
        strict_order(less),
    ensures
        list.no_duplicates(),
{
    assert forall|i: int, j: int| 0 <= i < list.len() && 0 <= j < list.len() && i != j implies list[i] != list[j] by {
        if i < j {
            assert(less(list[i], list[j]));
        } else {
            assert(less(list[j], list[i]));
        }
    }
}

/// Stores the dependencies as arcs.
fn store_dependencies(graph: &mut StableDiGraph<SnapshotTask, EdgeKind>, ids: &Vec<TaskId>, slots: &Vec<usize>, edges: &Vec<GraphEdge>)
    requires
        ascending(views(ids@), TaskId::less()),
        ids@.len() == slots@.len(),
        slots@.no_duplicates(),
        graph_arcs(*old(graph)) == no_arcs(),
        forall|slot: usize| #[trigger] graph_nodes(*old(graph)).dom().contains(slot) <==> slots@.contains(slot),
        ascending(views(edges@), GraphEdge::less()),
        forall|e: EdgeView| #[trigger] views(edges@).contains(e) ==> views(ids@).contains(e.from) && views(ids@).contains(e.to),
        edges@.len() <= u32::MAX,
    ensures
        graph_nodes(*final(graph)) == graph_nodes(*old(graph)),
        graph_arcs(*final(graph)).len() == edges@.len(),
        mirrors(views(edges@).to_set(), graph_arcs(*final(graph)), views(ids@), slots@),
{
    let ghost nodes = graph_nodes(*graph);
    let ghost names = views(ids@);
    let ghost all = views(edges@);
    proof {
        TaskId::order_is_strict();
        ascending_has_no_duplicates(names, TaskId::less());
        assert(all.take(0).to_set() =~= Set::<EdgeView>::empty());
        assert(mirrors(all.take(0).to_set(), graph_arcs(*graph), names, slots@));
    }
    let mut k: usize = 0;
    while k < edges.len()
        invariant
            k <= edges@.len() <= u32::MAX,
            names == views(ids@),
            all == views(edges@),
            ascending(names, TaskId::less()),
            ids@.len() == slots@.len(),
            graph_nodes(*graph) == nodes,
            forall|slot: usize| #[trigger] nodes.dom().contains(slot) <==> slots@.contains(slot),
            forall|e: EdgeView| #[trigger] all.contains(e) ==> names.contains(e.from) && names.contains(e.to),
            graph_arcs(*graph).len() == k,
            mirrors(all.take(k as int).to_set(), graph_arcs(*graph), names, slots@),
        decreases edges@.len() - k,
    {
        let ghost arcs = graph_arcs(*graph);
        let ghost edge = all[k as int];
        assert(all.contains(edge));
        assert(edge == edges@[k as int]@);
        let (from, found_from) = find_place(ids, &edges[k].from);
        let (to, found_to) = find_place(ids, &edges[k].to);
        assert(names[from as int] == edge.from && names[to as int] == edge.to);
        assert(slots@.contains(slots@[from as int]) && slots@.contains(slots@[to as int]));
        add_edge(graph, slots[from], slots[to], edges[k].kind);
        proof {
            one_more_edge(all.take(k as int).to_set(), arcs, names, slots@, from as int, to as int, edge.kind);
            assert(all.take(k + 1).to_set() =~= all.take(k as int).to_set().insert(edge)) by {
                assert forall|e: EdgeView| all.take(k + 1).to_set().contains(e) <==> all.take(k as int).to_set().insert(edge).contains(e) by {
                    let longer = all.take(k + 1);
                    if longer.contains(e) {
                        let m = choose|m: int| 0 <= m < longer.len() && longer[m] == e;
                        if m < k {
                            assert(all.take(k as int)[m] == e);
                        }
                    }
                    if all.take(k as int).contains(e) {
                        let shorter = all.take(k as int);
                        let m = choose|m: int| 0 <= m < shorter.len() && shorter[m] == e;
                        assert(all.take(k + 1)[m] == e);
                    }
                    if e == edge {
                        assert(all.take(k + 1)[k as int] == e);
                    }
                }
            }
        }
        k += 1;
    }
    assert(all.take(k as int) =~= all);
}

/// Considers the discoveries in order; returns those that were dropped.
fn settle_discoveries(
    graph: &mut StableDiGraph<SnapshotTask, EdgeKind>,
    ids: &Vec<TaskId>,
    slots: &Vec<usize>,
    edges: &mut Vec<GraphEdge>,
    discoveries: &Vec<GraphEdge>,
) -> (dropped: Vec<GraphEdge>)
    requires
        ascending(views(ids@), TaskId::less()),
        ids@.len() == slots@.len(),
        forall|slot: usize| #[trigger] graph_nodes(*old(graph)).dom().contains(slot) <==> slots@.contains(slot),
        ascending(views(old(edges)@), GraphEdge::less()),
        mirrors(views(old(edges)@).to_set(), graph_arcs(*old(graph)), views(ids@), slots@),
        graph_arcs(*old(graph)).len() == old(edges)@.len(),
        graph_arcs(*old(graph)).len() + discoveries@.len() <= u32::MAX,
        ascending(views(discoveries@), GraphEdge::less()),
        forall|e: EdgeView| #[trigger] views(discoveries@).contains(e) ==> !views(old(edges)@).contains(e),
        forall|e: EdgeView| #[trigger] views(discoveries@).contains(e) ==> views(ids@).contains(e.from) && views(ids@).contains(e.to),
    ensures
        graph_nodes(*final(graph)) == graph_nodes(*old(graph)),
        ascending(views(final(edges)@), GraphEdge::less()),
        settled(views(old(edges)@).to_set(), views(discoveries@)) == (views(final(edges)@).to_set(), views(dropped@)),
        mirrors(views(final(edges)@).to_set(), graph_arcs(*final(graph)), views(ids@), slots@),
        graph_arcs(*final(graph)).len() == final(edges)@.len(),
{
    let ghost nodes = graph_nodes(*graph);
    let ghost names = views(ids@);
    let ghost all = views(discoveries@);
    let ghost start = views(edges@).to_set();
    let ghost count = graph_arcs(*graph).len();
    let mut dropped: Vec<GraphEdge> = Vec::new();
    let mut k: usize = 0;
    proof {
        GraphEdge::order_is_strict();
        ascending_has_no_duplicates(all, GraphEdge::less());
        assert forall|e: EdgeView| #[trigger] all.contains(e) implies !start.contains(e) by {
            assert(start.contains(e) <==> views(edges@).contains(e));
        }
    }
    assert(views(dropped@) =~= Seq::<EdgeView>::empty());
    assert(all.take(0) =~= Seq::<EdgeView>::empty());
    while k < discoveries.len()
        invariant
            k <= discoveries@.len(),
            names == views(ids@),
            all == views(discoveries@),
            ascending(names, TaskId::less()),
            ids@.len() == slots@.len(),
            graph_nodes(*graph) == nodes,
            forall|slot: usize| #[trigger] nodes.dom().contains(slot) <==> slots@.contains(slot),
            forall|e: EdgeView| #[trigger] all.contains(e) ==> names.contains(e.from) && names.contains(e.to),
            ascending(views(edges@), GraphEdge::less()),
            graph_arcs(*graph).len() <= count + k,
            graph_arcs(*graph).len() == edges@.len(),
            all.no_duplicates(),
            forall|e: EdgeView| #[trigger] all.contains(e) ==> !start.contains(e),
            count + discoveries@.len() <= u32::MAX,
            mirrors(views(edges@).to_set(), graph_arcs(*graph), names, slots@),
            settled(start, all.take(k as int)) == (views(edges@).to_set(), views(dropped@)),
        decreases discoveries@.len() - k,
    {
        let ghost arcs = graph_arcs(*graph);
        let ghost before = views(edges@).to_set();
        let ghost edge = all[k as int];
        let ghost dropped_before = dropped@;
        proof {
            assert(all.contains(edge));
            assert(edge == discoveries@[k as int]@);
            assert(all.take(k + 1).drop_last() =~= all.take(k as int));
            assert(all.take(k + 1).last() == edge);
        }
        let (from, found_from) = find_place(ids, &discoveries[k].from);
        let (to, found_to) = find_place(ids, &discoveries[k].to);
        assert(names[from as int] == edge.from && names[to as int] == edge.to);
        assert(slots@.contains(slots@[from as int]) && slots@.contains(slots@[to as int]));
        let closes = has_path(graph, slots[to], slots[from]);
        proof {
            if closes {
                slot_path_to_ids(before, arcs, names, slots@, to as int, from as int);
            } else if reaches(before, edge.to, edge.from) {
                id_path_to_slots(before, arcs, names, slots@, to as int, from as int);
            }
        }
        let copy = discoveries[k].clone();
        if closes {
            proof {
                views_push(dropped@, copy);
            }
            dropped.push(copy);
        } else {
            let kind = copy.kind;
            proof {
                dependencies_are_kept(start, all.take(k as int));
                assert(before.contains(edge) <==> views(edges@).contains(edge));
                if before.contains(edge) {
                    assert(all.take(k as int).contains(edge));
                    let m = choose|m: int| 0 <= m < k && all.take(k as int)[m] == edge;
                    assert(all[m] == all[k as int]);
                }
            }
            add_edge(graph, slots[from], slots[to], kind);
            insert_ordered(edges, copy);
            proof {
                one_more_edge(before, arcs, names, slots@, from as int, to as int, edge.kind);
                assert(views(edges@).to_set() =~= before.insert(edge)) by {
                    assert forall|e: EdgeView| views(edges@).to_set().contains(e) <==> before.insert(edge).contains(e) by {
                        assert(views(edges@).to_set().contains(e) <==> views(edges@).contains(e));
                    }
                }
            }
        }
        k += 1;
    }
    assert(all.take(k as int) =~= all);
    dropped
}

/// What the layout of a graph depends on: its tasks and edges, in order.
#[derive(Debug, PartialEq, Eq)]
pub struct TopologyFingerprint {
    pub ids: Vec<TaskId>,
    pub edges: Vec<GraphEdge>,
}

#[verifier::ext_equal]
pub struct FingerprintView {
    pub ids: Seq<TaskIdView>,
    pub edges: Seq<EdgeView>,
}

impl View for TopologyFingerprint {
    type V = FingerprintView;

    open spec fn view(&self) -> FingerprintView {
        FingerprintView { ids: views(self.ids@), edges: views(self.edges@) }
    }
}

/// The same edges once more.
pub fn copied_edges(list: &Vec<GraphEdge>) -> (copy: Vec<GraphEdge>)
    ensures
        views(copy@) == views(list@),
{
    let mut copy: Vec<GraphEdge> = Vec::new();
    let mut i: usize = 0;
    while i < list.len()
        invariant
            i <= list@.len(),
            views(copy@) == views(list@).take(i as int),
        decreases list@.len() - i,
    {
        let edge = list[i].clone();
        proof {
            views_push(copy@, edge);
            assert(views(list@).take(i + 1) =~= views(list@).take(i as int).push(views(list@)[i as int]));
        }
        copy.push(edge);
        i += 1;
    }
    assert(views(list@).take(i as int) =~= views(list@));
    copy
}

impl Clone for TopologyFingerprint {
    fn clone(&self) -> (copy: Self)
        ensures
            copy@ == self@,
    {
        TopologyFingerprint { ids: copied_ids(&self.ids), edges: copied_edges(&self.edges) }
    }
}

impl TopologyFingerprint {
    /// Whether two graphs have the same tasks and edges.
    pub fn same(&self, other: &TopologyFingerprint) -> (same: bool)
        ensures
            same == (self@ == other@),
    {
        if self.ids.len() != other.ids.len() || self.edges.len() != other.edges.len() {
            assert(self@.ids.len() == self.ids@.len() && other@.ids.len() == other.ids@.len());
            assert(self@.edges.len() == self.edges@.len() && other@.edges.len() == other.edges@.len());
            return false;
        }
        let mut i: usize = 0;
        while i < self.ids.len()
            invariant
                i <= self.ids@.len() == other.ids@.len(),
                forall|j: int| 0 <= j < i ==> (#[trigger] self.ids@[j])@ == other.ids@[j]@,
            decreases self.ids@.len() - i,
        {
            if !self.ids[i].same(&other.ids[i]) {
                assert(self@.ids[i as int] != other@.ids[i as int]);
                return false;
            }
            i += 1;
        }
        assert(self@.ids =~= other@.ids);
        let mut j: usize = 0;
        while j < self.edges.len()
            invariant
                j <= self.edges@.len() == other.edges@.len(),
                forall|k: int| 0 <= k < j ==> (#[trigger] self.edges@[k])@ == other.edges@[k]@,
            decreases self.edges@.len() - j,
        {
            let a = &self.edges[j];
            let b = &other.edges[j];
            if !a.from.same(&b.from) || !a.to.same(&b.to) || a.kind != b.kind {
                assert(self@.edges[j as int] != other@.edges[j as int]);
                return false;
            }
            j += 1;
        }
        assert(self@.edges =~= other@.edges);
        true
    }
}

/// Which way to move through the tasks.
#[derive(Clone, Copy, Debug, PartialEq, Eq, Structural)]
pub enum SelectionDirection {
    Forward,
    Backward,
}

/// The task graph of one snapshot.
pub struct GraphModel {
    graph: StableDiGraph<SnapshotTask, EdgeKind>,
    task_ids: Vec<TaskId>,
    edges: Vec<GraphEdge>,
    degradations: Vec<Degradation>,
    fingerprint: TopologyFingerprint,
    dependency_cyclic: bool,
}

impl View for GraphModel {
    type V = TopologyView;

    closed spec fn view(&self) -> TopologyView {
        TopologyView {
            ids: views(self.task_ids@),
            edges: views(self.edges@),
            degradations: views(self.degradations@),
            dependency_cyclic: self.dependency_cyclic,
        }
    }
}

impl GraphModel {
    /// The stored graph and the fingerprint agree with the lists: there is one
    /// arc for each edge.
    pub closed spec fn wf(&self) -> bool {
        &&& graph_arcs(self.graph).len() == self@.edges.len()
        &&& ascending(self@.ids, TaskId::less())
        &&& self.fingerprint@ == (FingerprintView { ids: self@.ids, edges: self@.edges })
        &&& exists|slots: Seq<usize>| #[trigger] mirrors(self@.edges.to_set(), graph_arcs(self.graph), self@.ids, slots)
    }

    /// Every edge joins two of the tasks.
    pub open spec fn edges_join_tasks(&self) -> bool {
        forall|e: EdgeView| #[trigger] self@.edges.contains(e) ==> self@.ids.contains(e.from) && self@.ids.contains(e.to)
    }

    pub proof fn ids_are_distinct(&self)
        requires
            self.wf(),
        ensures
            self@.ids.no_duplicates(),
            ascending(self@.ids, TaskId::less()),
    {
        TaskId::order_is_strict();
        ascending_has_no_duplicates(self@.ids, TaskId::less());
    }

    /// The stored graph holds one task under each id: the first one that the
    /// snapshot lists.
    pub closed spec fn stores(&self, tasks: Seq<TaskView>) -> bool {
        exists|slots: Seq<usize>|
            #[trigger] mirrors(self@.edges.to_set(), graph_arcs(self.graph), self@.ids, slots) && stored_tasks(
                graph_nodes(self.graph),
                slots,
                self@.ids,
                tasks,
            )
    }

    /// Builds the graph of a snapshot.
    pub fn from_snapshot(snapshot: &Snapshot) -> (model: GraphModel)
        requires
            link_count(snapshot@.tasks) <= u32::MAX,
        ensures
            model.wf(),
            model.edges_join_tasks(),
            model@ == topology_of(links_of(snapshot@.tasks)),
            are_listed(links_of(snapshot@.tasks)),
            model.stores(snapshot@.tasks),
    {
        let ghost all = snapshot@.tasks;
        let ghost links = links_of(all);
        let ghost less = GraphEdge::less();
        let (ids, firsts) = collect_ids(&snapshot.tasks);
        let (mut edges, missing) = collect_dependencies(&snapshot.tasks, &ids);
        proof {
            link_count_grows(all, all.len() as int);
            assert(all.take(all.len() as int) =~= all);
            TaskId::order_is_strict();
            GraphEdge::order_is_strict();
            assert forall|k: int| 0 <= k < firsts@.len() implies #[trigger] firsts@[k] < snapshot.tasks@.len() by {
                assert(is_first_task(all, ids@[k]@, firsts@[k] as int));
            }
        }
        let (mut graph, slots) = store_nodes(&snapshot.tasks, &firsts);
        proof {
            assert forall|e: EdgeView| #[trigger] views(edges@).contains(e) implies views(ids@).contains(e.from) && views(ids@).contains(e.to) by {
                assert(links.dependencies.contains(e));
                let i = choose|i: int| 0 <= i < all.len() && (#[trigger] all[i]).id == e.to && all[i].deps.contains(e.from);
                assert(has_task(all, e.to));
                assert(links.ids.contains(e.from) && links.ids.contains(e.to));
            }
        }
        store_dependencies(&mut graph, &ids, &slots, &edges);
        let dependency_cyclic = is_cyclic(&graph);
        proof {
            cycles_correspond(views(edges@).to_set(), graph_arcs(graph), views(ids@), slots@);
            assert(views(edges@).to_set() =~= links.dependencies) by {
                assert forall|e: EdgeView| views(edges@).to_set().contains(e) <==> links.dependencies.contains(e) by {
                    assert(views(edges@).to_set().contains(e) <==> views(edges@).contains(e));
                }
            }
        }
        let discoveries = collect_discoveries(&snapshot.tasks, &ids);
        proof {
            assert forall|e: EdgeView| #[trigger] views(discoveries@).contains(e) implies views(ids@).contains(e.from) && views(ids@).contains(e.to) by {
                assert(links.discoveries.contains(e));
                let i = choose|i: int| 0 <= i < all.len() && (#[trigger] all[i]).id == e.to && all[i].discovered_from == Some(e.from);
                assert(has_task(all, e.to));
                assert(links.ids.contains(e.from) && links.ids.contains(e.to));
            }
            assert forall|e: EdgeView| #[trigger] views(discoveries@).contains(e) implies !views(edges@).contains(e) by {
                assert(links.discoveries.contains(e));
                assert(!links.dependencies.contains(e));
            }
        }
        let dropped = settle_discoveries(&mut graph, &ids, &slots, &mut edges, &discoveries);
        let degradations = notes(&missing, dependency_cyclic, &dropped);
        let fingerprint = TopologyFingerprint { ids: copied_ids(&ids), edges: copied_edges(&edges) };
        let model = GraphModel { graph, task_ids: ids, edges, degradations, fingerprint, dependency_cyclic };
        proof {
            assert(lists(in_order(links.ids, TaskId::less()), links.ids, TaskId::less()));
            order_is_unique(views(ids@), in_order(links.ids, TaskId::less()), links.ids, TaskId::less());
            assert(lists(in_order(links.missing, less), links.missing, less));
            order_is_unique(views(missing@), in_order(links.missing, less), links.missing, less);
            assert(lists(in_order(links.discoveries, less), links.discoveries, less));
            order_is_unique(views(discoveries@), in_order(links.discoveries, less), links.discoveries, less);
            let final_edges = settled(links.dependencies, views(discoveries@)).0;
            assert(lists(views(edges@), final_edges, less)) by {
                assert forall|e: EdgeView| #[trigger] views(edges@).contains(e) <==> final_edges.contains(e) by {
                    assert(views(edges@).to_set().contains(e) <==> views(edges@).contains(e));
                }
            }
            assert(lists(in_order(final_edges, less), final_edges, less));
            order_is_unique(views(edges@), in_order(final_edges, less), final_edges, less);
            assert(model@ =~= topology_of(links));
            assert(mirrors(model@.edges.to_set(), graph_arcs(model.graph), model@.ids, slots@));
            assert forall|k: int| 0 <= k < slots@.len() implies is_first_of(all, model@.ids[k], graph_nodes(model.graph)[#[trigger] slots@[k]]) by {
                assert(is_first_task(all, ids@[k]@, firsts@[k] as int));
                assert(model@.ids[k] == ids@[k]@);
                assert(all[firsts@[k] as int] == snapshot.tasks@[firsts@[k] as int]@);
            }
            assert(stored_tasks(graph_nodes(model.graph), slots@, model@.ids, all));
            assert forall|e: EdgeView| #[trigger] model@.edges.contains(e) implies model@.ids.contains(e.from) && model@.ids.contains(e.to) by {
                assert(model@.edges.to_set().contains(e));
            }
        }
        model
    }

    /// The stored graph.
    pub fn graph(&self) -> (graph: &StableDiGraph<SnapshotTask, EdgeKind>)
        requires
            self.wf(),
        ensures
            graph_arcs(*graph).len() == self@.edges.len(),
            exists|slots: Seq<usize>| #[trigger] mirrors(self@.edges.to_set(), graph_arcs(*graph), self@.ids, slots),
            forall|tasks: Seq<TaskView>| #[trigger] self.stores(tasks) ==> exists|slots: Seq<usize>|
                #[trigger] mirrors(self@.edges.to_set(), graph_arcs(*graph), self@.ids, slots) && stored_tasks(
                    graph_nodes(*graph),
                    slots,
                    self@.ids,
                    tasks,
                ),
    {
        &self.graph
    }

    pub fn task_ids(&self) -> (ids: &Vec<TaskId>)
        ensures
            views(ids@) == self@.ids,
    {
        &self.task_ids
    }

    pub fn edges(&self) -> (edges: &Vec<GraphEdge>)
        ensures
            views(edges@) == self@.edges,
    {
        &self.edges
    }

    pub fn degradations(&self) -> (list: &Vec<Degradation>)
        ensures
            views(list@) == self@.degradations,
    {
        &self.degradations
    }

    pub fn topology_fingerprint(&self) -> (fingerprint: &TopologyFingerprint)
        requires
            self.wf(),
        ensures
            fingerprint@ == (FingerprintView { ids: self@.ids, edges: self@.edges }),
    {
        &self.fingerprint
    }

    pub fn dependency_cyclic(&self) -> (cyclic: bool)
        ensures
            cyclic == self@.dependency_cyclic,
    {
        self.dependency_cyclic
    }

    /// The task to select next, going round at the ends.
    pub fn navigate(&self, selected: Option<&TaskId>, direction: SelectionDirection) -> (next: Option<&TaskId>)
        requires
            self.wf(),
        ensures
            next matches Some(id) ==> navigated(self@.ids, crate::views::option_ref_view(selected), direction) == Some(id@),
            next is None ==> navigated(self@.ids, crate::views::option_ref_view(selected), direction) is None,
    {
        let count: usize = self.task_ids.len();
        if count == 0 {
            return None;
        }
        let current: Option<usize> = match selected {
            Some(id) => {
                let (at, found) = find_place(&self.task_ids, id);
                proof {
                    TaskId::order_is_strict();
                    ascending_has_no_duplicates(self@.ids, TaskId::less());
                    if found {
                        assert(self@.ids[at as int] == id@);
                        assert(self@.ids.contains(id@));
                        assert(self@.ids.index_of(id@) == at);
                    }
                }
                if found {
                    Some(at)
                } else {
                    None
                }
            },
            None => None,
        };
        let index: usize = match (current, direction) {
            (Some(at), SelectionDirection::Forward) => if at + 1 == count {
                0
            } else {
                at + 1
            },
            (Some(at), SelectionDirection::Backward) => if at == 0 {
                count - 1
            } else {
                at - 1
            },
            (None, SelectionDirection::Forward) => 0,
            (None, SelectionDirection::Backward) => count - 1,
        };
        assert(self@.ids[index as int] == self.task_ids@[index as int]@);
        Some(&self.task_ids[index])
    }
}

/// The notes about a topology, in the order in which they are shown.
fn notes(missing: &Vec<GraphEdge>, cyclic: bool, dropped: &Vec<GraphEdge>) -> (list: Vec<Degradation>)
    ensures
        views(list@) == missing_notes(views(missing@)) + cycle_notes(cyclic) + dropped_notes(views(dropped@)),
{
    let ghost lost = missing_notes(views(missing@));
    let ghost cut = dropped_notes(views(dropped@));
    let mut list: Vec<Degradation> = Vec::new();
    let mut i: usize = 0;
    assert(views(list@) =~= lost.take(0));
    while i < missing.len()
        invariant
            i <= missing@.len(),
            lost == missing_notes(views(missing@)),
            views(list@) == lost.take(i as int),
        decreases missing@.len() - i,
    {
        let note = Degradation::MissingDependency {
            dependent: missing[i].from.clone(),
            dependency: missing[i].to.clone(),
        };
        proof {
            views_push(list@, note);
            assert(lost.take(i + 1) =~= lost.take(i as int).push(lost[i as int]));
        }
        list.push(note);
        i += 1;
    }
    assert(lost.take(i as int) =~= lost);
    if cyclic {
        proof {
            views_push(list@, Degradation::CyclicDependencies);
        }
        list.push(Degradation::CyclicDependencies);
    }
    let ghost start = lost + cycle_notes(cyclic);
    assert(views(list@) =~= start);
    let mut j: usize = 0;
    assert(start + cut.take(0) =~= start);
    while j < dropped.len()
        invariant
            j <= dropped@.len(),
            cut == dropped_notes(views(dropped@)),
            views(list@) == start + cut.take(j as int),
        decreases dropped@.len() - j,
    {
        let note = Degradation::CyclicDiscovery { from: dropped[j].from.clone(), to: dropped[j].to.clone() };
        proof {
            views_push(list@, note);
            assert(start + cut.take(j + 1) =~= (start + cut.take(j as int)).push(cut[j as int]));
        }
        list.push(note);
        j += 1;
    }
    assert(cut.take(j as int) =~= cut);
    list
}

/// The id that follows or precedes `selected` in `ids`, round the ends; the
/// first or the last one where `selected` is not among them.
pub open spec fn navigated(ids: Seq<TaskIdView>, selected: Option<TaskIdView>, direction: SelectionDirection) -> Option<TaskIdView> {
    if ids.len() == 0 {
        None
    } else {
        let known = selected is Some && ids.contains(selected->0);
        let at = ids.index_of(selected->0);
        match direction {
            SelectionDirection::Forward => if known && at + 1 < ids.len() {
                Some(ids[at + 1])
            } else {
                Some(ids[0])
            },
            SelectionDirection::Backward => if known && at > 0 {
                Some(ids[at - 1])
            } else {
                Some(ids.last())
            },
        }
    }
}

/// A step forward and a step back lead to where one was.
pub proof fn steps_undo_each_other(ids: Seq<TaskIdView>, selected: TaskIdView)
    requires
        ids.no_duplicates(),
        ids.contains(selected),
    ensures
        navigated(ids, navigated(ids, Some(selected), SelectionDirection::Forward), SelectionDirection::Backward) == Some(selected),
        navigated(ids, navigated(ids, Some(selected), SelectionDirection::Backward), SelectionDirection::Forward) == Some(selected),
{
    let at = ids.index_of(selected);
    let forward = if at + 1 < ids.len() { at + 1 } else { 0 };
    let backward = if at > 0 { at - 1 } else { ids.len() - 1 };
    assert(ids.contains(ids[forward]));
    assert(ids.index_of(ids[forward]) == forward);
    assert(ids.contains(ids[backward]));
    assert(ids.index_of(ids[backward]) == backward);
}

} // verus!
