use jeff_control::graph_store::EdgeKind;
use jeff_control::layout::{CacheDecision, GridCell, LayoutCache, LayoutPlan};
use jeff_control::project::{ProjectMode, Snapshot, SnapshotTask, TaskId};
use jeff_control::topology::{Degradation, GraphModel, SelectionDirection};
use jeff_control::viewport::{best_hit, CellPoint, Hit};

fn id(value: u64) -> TaskId {
    TaskId::Number(value)
}

fn string_id(value: &str) -> TaskId {
    TaskId::String(value.into())
}

fn task(value: u64, deps: &[u64], discovered_from: Option<u64>) -> SnapshotTask {
    task_with_id(id(value), deps.iter().copied().map(id).collect(), discovered_from.map(id))
}

fn task_with_id(value: TaskId, deps: Vec<TaskId>, discovered_from: Option<TaskId>) -> SnapshotTask {
    let label = format!("{value:?}");
    SnapshotTask {
        id: value,
        slug: format!("task-{label}"),
        title: format!("Task {label}"),
        status: "pending".into(),
        stage: "implement".into(),
        priority: "p1".into(),
        deps,
        blocked_reason: None,
        category: Some("code".into()),
        discovered_from,
        claim: None,
        escalation: None,
    }
}

fn snapshot(tasks: Vec<SnapshotTask>) -> Snapshot {
    Snapshot {
        schema_version: 1,
        generated_at: "2026-08-10T00:00:00.000Z".into(),
        mode: ProjectMode::Lite,
        max_parallel_tasks: Some(1),
        tasks,
    }
}

fn planned_ids(plan: &LayoutPlan) -> Vec<TaskId> {
    match plan {
        LayoutPlan::Empty => Vec::new(),
        LayoutPlan::Grid { cells } => cells.iter().map(|cell| cell.id.clone()).collect(),
        LayoutPlan::Layered { ids, .. } => ids.clone(),
    }
}

#[test]
fn dependencies_flow_from_prerequisite_to_dependent_and_missing_ids_degrade() {
    let graph =
        GraphModel::from_snapshot(&snapshot(vec![task(1, &[], None), task(2, &[1, 99], None)]));

    assert_eq!(graph.task_ids(), &[id(1), id(2)]);
    assert!(graph.edges().iter().any(|edge| {
        edge.from == id(1) && edge.to == id(2) && edge.kind == EdgeKind::Dependency
    }));
    assert!(!graph.edges().iter().any(|edge| edge.from == id(99)));
    assert_eq!(
        graph.degradations(),
        &[Degradation::MissingDependency { dependent: id(2), dependency: id(99) }]
    );
}

#[test]
fn discovery_edges_are_distinct_and_cycle_forming_edges_are_dropped() {
    let graph = GraphModel::from_snapshot(&snapshot(vec![
        task(1, &[], Some(2)),
        task(2, &[1], None),
        task(3, &[], Some(1)),
    ]));

    assert!(graph.edges().iter().any(|edge| {
        edge.from == id(1) && edge.to == id(3) && edge.kind == EdgeKind::Discovery
    }));
    assert!(!graph.edges().iter().any(|edge| {
        edge.from == id(2) && edge.to == id(1) && edge.kind == EdgeKind::Discovery
    }));
    assert!(graph
        .degradations()
        .contains(&Degradation::CyclicDiscovery { from: id(2), to: id(1) }));
}

#[test]
fn equivalent_topologies_have_equal_fingerprints_and_positions() {
    let first = GraphModel::from_snapshot(&snapshot(vec![
        task(1, &[], None),
        task(2, &[1], None),
        task(3, &[1, 2], None),
    ]));
    let second = GraphModel::from_snapshot(&snapshot(vec![
        task(3, &[2, 1], None),
        task(1, &[], None),
        task(2, &[1], None),
    ]));
    let mut first_cache = LayoutCache::default();
    let mut second_cache = LayoutCache::default();

    assert_eq!(first.topology_fingerprint(), second.topology_fingerprint());
    assert_eq!(first_cache.update(&first), CacheDecision::Recomputed);
    assert_eq!(second_cache.update(&second), CacheDecision::Recomputed);
    assert_eq!(
        first_cache.layout().expect("first layout"),
        second_cache.layout().expect("second layout")
    );
    match first_cache.layout().expect("first layout") {
        LayoutPlan::Layered { ids, edges } => {
            assert_eq!(ids, &[id(1), id(2), id(3)]);
            assert_eq!(edges, &[(0, 1), (0, 2), (1, 2)]);
        }
        other => panic!("expected layers, got {other:?}"),
    }
}

#[test]
fn dependency_cycles_degrade_and_use_stable_node_preserving_fallback() {
    let first = GraphModel::from_snapshot(&snapshot(vec![
        task(1, &[2], None),
        task(2, &[1], None),
        task(3, &[1], None),
    ]));
    let second = GraphModel::from_snapshot(&snapshot(vec![
        task(3, &[1], None),
        task(2, &[1], None),
        task(1, &[2], None),
    ]));
    let mut first_cache = LayoutCache::default();
    let mut second_cache = LayoutCache::default();

    assert_eq!(first.degradations(), &[Degradation::CyclicDependencies]);
    assert_eq!(second.degradations(), &[Degradation::CyclicDependencies]);
    assert_eq!(first_cache.update(&first), CacheDecision::Recomputed);
    assert_eq!(second_cache.update(&second), CacheDecision::Recomputed);
    let first_layout = first_cache.layout().expect("first fallback layout");
    let second_layout = second_cache.layout().expect("second fallback layout");
    assert_eq!(planned_ids(first_layout), vec![id(1), id(2), id(3)]);
    assert_eq!(first_layout, second_layout);
    assert_eq!(
        first_layout,
        &LayoutPlan::Grid {
            cells: vec![
                GridCell { id: id(1), column: 0, row: 0 },
                GridCell { id: id(2), column: 1, row: 0 },
                GridCell { id: id(3), column: 0, row: 1 },
            ],
        }
    );
}

#[test]
fn display_only_updates_reuse_layout_but_topology_updates_recompute() {
    let base = snapshot(vec![task(1, &[], None), task(2, &[1], None)]);
    let first = GraphModel::from_snapshot(&base);
    let mut display_changed = base.clone();
    display_changed.generated_at = "2026-08-10T01:00:00.000Z".into();
    display_changed.tasks[0].status = "done".into();
    display_changed.tasks[0].title = "Renamed".into();
    let display_changed = GraphModel::from_snapshot(&display_changed);
    let topology_changed = GraphModel::from_snapshot(&snapshot(vec![
        task(1, &[], None),
        task(2, &[1], None),
        task(3, &[2], None),
    ]));
    let mut cache = LayoutCache::default();

    assert_eq!(cache.update(&first), CacheDecision::Recomputed);
    let original = format!("{:?}", cache.layout().expect("initial layout"));
    assert_eq!(cache.update(&display_changed), CacheDecision::Reused);
    assert_eq!(format!("{:?}", cache.layout().expect("reused layout")), original);
    assert_eq!(cache.update(&topology_changed), CacheDecision::Recomputed);
}

#[test]
fn edge_only_topology_changes_recompute_layout_with_stable_ids() {
    let dependency_before = GraphModel::from_snapshot(&snapshot(vec![
        task(1, &[], None),
        task(2, &[1], None),
        task(3, &[], None),
    ]));
    let dependency_after = GraphModel::from_snapshot(&snapshot(vec![
        task(1, &[], None),
        task(2, &[3], None),
        task(3, &[], None),
    ]));
    let discovery_before = GraphModel::from_snapshot(&snapshot(vec![
        task(1, &[], None),
        task(2, &[], None),
        task(3, &[], Some(1)),
    ]));
    let discovery_after = GraphModel::from_snapshot(&snapshot(vec![
        task(1, &[], None),
        task(2, &[], None),
        task(3, &[], Some(2)),
    ]));
    let mut dependency_cache = LayoutCache::default();
    let mut discovery_cache = LayoutCache::default();

    assert_eq!(dependency_before.task_ids(), dependency_after.task_ids());
    assert_ne!(dependency_before.topology_fingerprint(), dependency_after.topology_fingerprint());
    assert_eq!(dependency_cache.update(&dependency_before), CacheDecision::Recomputed);
    assert_eq!(dependency_cache.update(&dependency_after), CacheDecision::Recomputed);

    assert_eq!(discovery_before.task_ids(), discovery_after.task_ids());
    assert_ne!(discovery_before.topology_fingerprint(), discovery_after.topology_fingerprint());
    assert_eq!(discovery_cache.update(&discovery_before), CacheDecision::Recomputed);
    assert_eq!(discovery_cache.update(&discovery_after), CacheDecision::Recomputed);
}

#[test]
fn hit_testing_uses_the_inverse_transform_and_resolves_overlap_deterministically() {
    let equal_area = vec![Hit { id: id(1), area: 64 }, Hit { id: id(2), area: 64 }];
    assert_eq!(best_hit(&equal_area), Some(id(2)));

    let mut with_smaller = equal_area;
    with_smaller.push(Hit { id: id(1), area: 16 });
    assert_eq!(best_hit(&with_smaller), Some(id(1)));
    assert_eq!(best_hit(&Vec::new()), None);
}

#[test]
fn keyboard_navigation_can_reach_the_same_task_as_mouse_hit_testing() {
    let graph = GraphModel::from_snapshot(&snapshot(vec![
        task(3, &[], None),
        task(1, &[], None),
        task(2, &[], None),
    ]));
    let mouse_selected = best_hit(&vec![Hit { id: id(2), area: 64 }]).expect("mouse selection");

    assert_eq!(
        graph.navigate(Some(&id(1)), SelectionDirection::Forward),
        Some(&mouse_selected)
    );
    assert_eq!(
        graph.navigate(Some(&id(3)), SelectionDirection::Backward),
        Some(&mouse_selected)
    );
}

#[test]
fn mixed_ids_remain_distinct_and_follow_canonical_layout_selection_order() {
    let number_one = id(1);
    let string_one = string_id("1");
    let alpha = string_id("alpha");
    let zed = string_id("z");
    let graph = GraphModel::from_snapshot(&snapshot(vec![
        task_with_id(zed.clone(), Vec::new(), None),
        task_with_id(string_one.clone(), Vec::new(), None),
        task_with_id(number_one.clone(), Vec::new(), None),
        task_with_id(alpha.clone(), Vec::new(), None),
    ]));
    let without_string_one = GraphModel::from_snapshot(&snapshot(vec![
        task_with_id(zed.clone(), Vec::new(), None),
        task_with_id(number_one.clone(), Vec::new(), None),
        task_with_id(alpha.clone(), Vec::new(), None),
    ]));
    let expected = vec![number_one.clone(), string_one.clone(), alpha.clone(), zed.clone()];

    assert_eq!(graph.task_ids(), &expected);
    assert_ne!(graph.topology_fingerprint(), without_string_one.topology_fingerprint());
    assert_eq!(
        graph.navigate(Some(&number_one), SelectionDirection::Forward),
        Some(&string_one)
    );
    assert_eq!(graph.navigate(Some(&number_one), SelectionDirection::Backward), Some(&zed));

    let mut cache = LayoutCache::default();
    assert_eq!(cache.update(&graph), CacheDecision::Recomputed);
    assert_eq!(planned_ids(cache.layout().expect("mixed-id layout")), expected);

    let equal_hits = vec![
        Hit { id: zed.clone(), area: 64 },
        Hit { id: number_one, area: 64 },
        Hit { id: alpha, area: 64 },
        Hit { id: string_one, area: 64 },
    ];
    assert_eq!(best_hit(&equal_hits), Some(zed));
}

#[test]
fn an_empty_project_has_nothing_to_lay_out_or_select() {
    let graph = GraphModel::from_snapshot(&snapshot(Vec::new()));
    let mut cache = LayoutCache::default();

    assert!(cache.layout().is_none());
    assert_eq!(cache.update(&graph), CacheDecision::Recomputed);
    assert_eq!(cache.layout(), Some(&LayoutPlan::Empty));
    assert_eq!(cache.update(&graph), CacheDecision::Reused);
    assert_eq!(graph.navigate(None, SelectionDirection::Forward), None);
    assert_eq!(CellPoint::default(), CellPoint::new(0, 0));
}

#[test]
fn navigation_wraps_and_starts_at_the_near_end() {
    let graph = GraphModel::from_snapshot(&snapshot(vec![
        task(1, &[], None),
        task(2, &[], None),
        task(3, &[], None),
    ]));

    assert_eq!(graph.navigate(None, SelectionDirection::Forward), Some(&id(1)));
    assert_eq!(graph.navigate(None, SelectionDirection::Backward), Some(&id(3)));
    assert_eq!(graph.navigate(Some(&id(3)), SelectionDirection::Forward), Some(&id(1)));
    assert_eq!(graph.navigate(Some(&id(1)), SelectionDirection::Backward), Some(&id(3)));
}

#[test]
fn repeated_links_and_tasks_count_once() {
    let mut duplicate = task(1, &[], None);
    duplicate.title = "Second of its id".into();
    let graph = GraphModel::from_snapshot(&snapshot(vec![
        task(1, &[], None),
        duplicate,
        task(2, &[1, 1], Some(1)),
    ]));

    assert_eq!(graph.task_ids(), &[id(1), id(2)]);
    assert_eq!(graph.edges().len(), 2);
    assert!(graph.degradations().is_empty());
    assert!(!graph.dependency_cyclic());
    assert_eq!(graph.graph().node_count(), 2);
    assert_eq!(graph.graph().edge_count(), 2);
}

#[test]
fn a_task_that_depends_on_itself_is_a_cycle() {
    let graph = GraphModel::from_snapshot(&snapshot(vec![task(1, &[1], None)]));

    assert!(graph.dependency_cyclic());
    assert_eq!(graph.degradations(), &[Degradation::CyclicDependencies]);
}
