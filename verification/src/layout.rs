//! What is to be laid out, and when a layout can be kept.

use crate::project::{copied_ids, TaskId, TaskIdView};
use crate::sorted::{ascending, find_place, Ordered};
use crate::topology::{EdgeView, FingerprintView, GraphModel, TopologyFingerprint, TopologyView};
use crate::views::{option_view, views, views_push};
use vstd::prelude::*;

verus! {

/// Whether an update had to lay the graph out again.
#[derive(Clone, Copy, Debug, PartialEq, Eq, Structural)]
pub enum CacheDecision {
    Recomputed,
    Reused,
}

/// A task and its place on a grid.
#[derive(Debug, PartialEq, Eq)]
pub struct GridCell {
    pub id: TaskId,
    pub column: usize,
    pub row: usize,
}

pub struct GridCellView {
    pub id: TaskIdView,
    pub column: int,
    pub row: int,
}

impl View for GridCell {
    type V = GridCellView;

    open spec fn view(&self) -> GridCellView {
        GridCellView { id: self.id@, column: self.column as int, row: self.row as int }
    }
}

/// How the tasks are arranged: not at all, on a grid, or in layers that follow
/// the edges between the tasks at the given places.
#[derive(Debug, PartialEq, Eq)]
pub enum LayoutPlan {
    Empty,
    Grid { cells: Vec<GridCell> },
    Layered { ids: Vec<TaskId>, edges: Vec<(usize, usize)> },
}

pub enum PlanView {
    Empty,
    Grid { cells: Seq<GridCellView> },
    Layered { ids: Seq<TaskIdView>, edges: Seq<(usize, usize)> },
}

impl View for LayoutPlan {
    type V = PlanView;

    open spec fn view(&self) -> PlanView {
        match self {
            LayoutPlan::Empty => PlanView::Empty,
            LayoutPlan::Grid { cells } => PlanView::Grid { cells: views(cells@) },
            LayoutPlan::Layered { ids, edges } => PlanView::Layered { ids: views(ids@), edges: edges@ },
        }
    }
}

/// `columns` is the side of the smallest square grid with `count` places.
pub open spec fn is_grid_width(columns: int, count: int) -> bool {
    &&& columns >= 1
    &&& columns * columns >= count
    &&& columns > 1 ==> (columns - 1) * (columns - 1) < count
}

pub open spec fn grid_width(count: int) -> int {
    choose|columns: int| is_grid_width(columns, count)
}

/// There is one smallest square.
proof fn grid_width_is_unique(a: int, b: int, count: int)
    requires
        is_grid_width(a, count),
        is_grid_width(b, count),
    ensures
        a == b,
{
    if a < b {
        assert(a * a <= (b - 1) * (b - 1)) by (nonlinear_arith)
            requires
                1 <= a <= b - 1,
        ;
    } else if b < a {
        assert(b * b <= (a - 1) * (a - 1)) by (nonlinear_arith)
            requires
                1 <= b <= a - 1,
        ;
    }
}

/// The tasks row by row.
pub open spec fn grid_cells(ids: Seq<TaskIdView>) -> Seq<GridCellView> {
    let columns = grid_width(ids.len() as int);
    Seq::new(ids.len(), |i: int| GridCellView { id: ids[i], column: i % columns, row: i / columns })
}

/// The edges by the places of the tasks that they join.
pub open spec fn edge_places(ids: Seq<TaskIdView>, edges: Seq<EdgeView>) -> Seq<(usize, usize)> {
    Seq::new(edges.len(), |i: int| (ids.index_of(edges[i].from) as usize, ids.index_of(edges[i].to) as usize))
}

/// The arrangement of a topology: where the dependencies go round in circles
/// there are no layers, so a grid that keeps every task.
pub open spec fn planned(topology: TopologyView) -> PlanView {
    if topology.ids.len() == 0 {
        PlanView::Empty
    } else if topology.dependency_cyclic {
        PlanView::Grid { cells: grid_cells(topology.ids) }
    } else {
        PlanView::Layered { ids: topology.ids, edges: edge_places(topology.ids, topology.edges) }
    }
}

fn square_is_below(side: usize, count: usize) -> (below: bool)
    ensures
        below == (side * side < count),
{
    match side.checked_mul(side) {
        Some(product) => product < count,
        None => false,
    }
}

fn grid_columns(count: usize) -> (columns: usize)
    requires
        count > 0,
    ensures
        columns == grid_width(count as int),
        columns >= 1,
{
    let mut columns: usize = 1;
    while square_is_below(columns, count)
        invariant
            1 <= columns <= count,
            columns > 1 ==> (columns - 1) * (columns - 1) < count,
        decreases count - columns,
    {
        assert(columns * columns < count);
        assert(columns < columns * columns + 1) by (nonlinear_arith)
            requires
                columns >= 1,
        ;
        columns += 1;
    }
    proof {
        assert(columns * columns >= count);
        assert(is_grid_width(columns as int, count as int));
        grid_width_is_unique(columns as int, grid_width(count as int), count as int);
    }
    columns
}

fn plan_grid(ids: &Vec<TaskId>) -> (cells: Vec<GridCell>)
    requires
        ids@.len() > 0,
    ensures
        views(cells@) == grid_cells(views(ids@)),
{
    let columns = grid_columns(ids.len());
    let ghost wanted = grid_cells(views(ids@));
    let mut cells: Vec<GridCell> = Vec::new();
    let mut i: usize = 0;
    assert(views(cells@) =~= wanted.take(0));
    while i < ids.len()
        invariant
            i <= ids@.len(),
            columns >= 1,
            columns == grid_width(ids@.len() as int),
            wanted == grid_cells(views(ids@)),
            views(cells@) == wanted.take(i as int),
        decreases ids@.len() - i,
    {
        let cell = GridCell { id: ids[i].clone(), column: i % columns, row: i / columns };
        proof {
            views_push(cells@, cell);
            assert(wanted.take(i + 1) =~= wanted.take(i as int).push(wanted[i as int]));
        }
        cells.push(cell);
        i += 1;
    }
    assert(wanted.take(i as int) =~= wanted);
    cells
}

/// Plans the layout of a graph.
pub fn plan_layout(model: &GraphModel) -> (plan: LayoutPlan)
    requires
        model.wf(),
        model.edges_join_tasks(),
    ensures
        plan@ == planned(model@),
{
    let ids = model.task_ids();
    if ids.len() == 0 {
        assert(model@.ids.len() == 0);
        return LayoutPlan::Empty;
    }
    assert(model@.ids.len() == ids@.len());
    if model.dependency_cyclic() {
        return LayoutPlan::Grid { cells: plan_grid(ids) };
    }
    let edges = model.edges();
    let ghost names = model@.ids;
    let ghost joins = model@.edges;
    let ghost wanted = edge_places(names, joins);
    proof {
        model.ids_are_distinct();
    }
    let mut places: Vec<(usize, usize)> = Vec::new();
    let mut k: usize = 0;
    assert(places@ =~= wanted.take(0));
    while k < edges.len()
        invariant
            k <= edges@.len(),
            names == views(ids@),
            joins == views(edges@),
            names.no_duplicates(),
            ascending(names, TaskId::less()),
            forall|e: EdgeView| #[trigger] joins.contains(e) ==> names.contains(e.from) && names.contains(e.to),
            wanted == edge_places(names, joins),
            places@ == wanted.take(k as int),
        decreases edges@.len() - k,
    {
        assert(joins[k as int] == edges@[k as int]@);
        assert(joins.contains(joins[k as int]));
        let (from, _) = find_place(ids, &edges[k].from);
        let (to, _) = find_place(ids, &edges[k].to);
        proof {
            assert(names[from as int] == joins[k as int].from);
            assert(names[to as int] == joins[k as int].to);
            assert(names.index_of(joins[k as int].from) == from);
            assert(names.index_of(joins[k as int].to) == to);
            assert(wanted.take(k + 1) =~= wanted.take(k as int).push(wanted[k as int]));
        }
        places.push((from, to));
        k += 1;
    }
    assert(wanted.take(k as int) =~= wanted);
    LayoutPlan::Layered { ids: copied_ids(ids), edges: places }
}

/// Keeps the plan of the last topology.
pub struct LayoutCache {
    fingerprint: Option<TopologyFingerprint>,
    plan: Option<LayoutPlan>,
}

pub struct LayoutCacheView {
    pub fingerprint: Option<FingerprintView>,
    pub plan: Option<PlanView>,
}

impl View for LayoutCache {
    type V = LayoutCacheView;

    closed spec fn view(&self) -> LayoutCacheView {
        LayoutCacheView { fingerprint: option_view(self.fingerprint), plan: option_view(self.plan) }
    }
}

/// The part of a topology that its layout is keyed by.
pub open spec fn fingerprint_of(topology: TopologyView) -> FingerprintView {
    FingerprintView { ids: topology.ids, edges: topology.edges }
}

/// The decision and the cache after a graph has been shown to it.
pub open spec fn cache_updated(cache: LayoutCacheView, topology: TopologyView) -> (CacheDecision, LayoutCacheView) {
    if cache.fingerprint == Some(fingerprint_of(topology)) {
        (CacheDecision::Reused, cache)
    } else {
        (
            CacheDecision::Recomputed,
            LayoutCacheView { fingerprint: Some(fingerprint_of(topology)), plan: Some(planned(topology)) },
        )
    }
}

impl Default for LayoutCache {
    fn default() -> (cache: Self)
        ensures
            cache@ == (LayoutCacheView { fingerprint: None, plan: None }),
    {
        LayoutCache { fingerprint: None, plan: None }
    }
}

impl LayoutCache {
    /// Takes note of a graph; lays it out again only if its topology changed.
    pub fn update(&mut self, model: &GraphModel) -> (decision: CacheDecision)
        requires
            model.wf(),
            model.edges_join_tasks(),
        ensures
            (decision, final(self)@) == cache_updated(old(self)@, model@),
    {
        let unchanged = match &self.fingerprint {
            Some(fingerprint) => fingerprint.same(model.topology_fingerprint()),
            None => false,
        };
        if unchanged {
            return CacheDecision::Reused;
        }
        self.plan = Some(plan_layout(model));
        self.fingerprint = Some(model.topology_fingerprint().clone());
        CacheDecision::Recomputed
    }

    /// The plan of the last topology.
    pub fn layout(&self) -> (plan: Option<&LayoutPlan>)
        ensures
            crate::views::option_ref_view(plan) == self@.plan,
    {
        self.plan.as_ref()
    }
}

/// A layout is kept exactly as long as the topology stays the same.
pub proof fn layout_is_kept_for_the_same_topology(cache: LayoutCacheView, first: TopologyView, second: TopologyView)
    ensures
        ({
            let (_, after) = cache_updated(cache, first);
            let (decision, again) = cache_updated(after, second);
            &&& decision == CacheDecision::Reused <==> fingerprint_of(first) == fingerprint_of(second)
            &&& decision == CacheDecision::Reused ==> again.plan == after.plan
        }),
{
}

/// Every task gets a place of its own on the grid.
pub proof fn grid_places_are_distinct(ids: Seq<TaskIdView>, i: int, j: int)
    requires
        0 <= i < j < ids.len(),
    ensures
        grid_cells(ids).len() == ids.len(),
        grid_cells(ids)[i].id == ids[i],
        grid_cells(ids)[i].column != grid_cells(ids)[j].column || grid_cells(ids)[i].row != grid_cells(ids)[j].row,
{
    grid_width_exists(ids.len() as int);
    let columns = grid_width(ids.len() as int);
    if i % columns == j % columns && i / columns == j / columns {
        assert(i == j) by (nonlinear_arith)
            requires
                columns >= 1,
                i % columns == j % columns,
                i / columns == j / columns,
        ;
    }
}

pub(crate) proof fn grid_width_exists(count: int)
    requires
        count >= 0,
    ensures
        is_grid_width(grid_width(count), count),
    decreases count,
{
    grid_width_search(1, count);
}

proof fn grid_width_search(from: int, count: int)
    requires
        from >= 1,
        from > 1 ==> (from - 1) * (from - 1) < count,
        count >= 0,
    ensures
        exists|columns: int| is_grid_width(columns, count),
    decreases count - from,
{
    if from * from >= count {
        assert(is_grid_width(from, count));
    } else {
        assert(from < count) by (nonlinear_arith)
            requires
                from >= 1,
                from * from < count,
        ;
        grid_width_search(from + 1, count);
    }
}

} // verus!
