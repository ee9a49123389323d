use bevy_assets_hmr::dependency::{CascadeQueue, DependencyGraph};
use bevy_assets_hmr::{
    AssetEvent, AssetRevision, AssetRevisionStatus, ConfigDelta, ConfigPathRegistry, DiffKind,
    HmrMetrics, RefreshDebouncer, UntypedKey,
};
use std::collections::HashSet;

struct Marker;

#[test]
fn last_event_in_a_window_wins() {
    let mut d: RefreshDebouncer<Marker> = RefreshDebouncer::new(10);
    d.handle_event(AssetEvent::Modified { id: 1 }, 100);
    d.handle_event(AssetEvent::Removed { id: 1 }, 101);
    assert!(!d.pending.contains_key(&1));
    assert_eq!(d.pending_removed[&1], 101);
    d.handle_event(AssetEvent::Added { id: 1 }, 102);
    assert!(!d.pending_removed.contains_key(&1));
    assert_eq!(d.pending[&1], 102);
    d.handle_event(AssetEvent::LoadedWithDependencies { id: 1 }, 103);
    assert_eq!(d.pending.len(), 1);
}

#[test]
fn due_refreshes_leave_once_and_later_ones_wait() {
    let mut d: RefreshDebouncer<Marker> = RefreshDebouncer::new(10);
    d.enqueue(1, 100);
    d.enqueue(2, 105);
    d.enqueue(1, 103);
    assert!(d.take_due_refreshes(112).is_empty());
    assert_eq!(d.take_due_refreshes(113), vec![1]);
    assert_eq!(d.take_due_refreshes(200), vec![2]);
    assert!(d.take_due_refreshes(300).is_empty());
    d.enqueue_removed(3, 0);
    d.enqueue(4, 0);
    let mut removals = d.take_due_removals(50);
    removals.sort();
    assert_eq!(removals, vec![3]);
    assert_eq!(d.pending.len(), 1);
}

#[test]
fn revisions_only_grow() {
    let mut revisions: AssetRevision<Marker> = AssetRevision::default();
    assert_eq!(revisions.record_available(1), 1);
    assert_eq!(revisions.record_failed(2, "data/b.ron".into(), "broken".into()), 2);
    assert_eq!(revisions.record_removed(1), 3);
    assert_eq!(revisions.revision(1), Some(3));
    assert_eq!(revisions.revision(2), Some(2));
    assert_eq!(
        revisions.status(2),
        Some(&AssetRevisionStatus::LoadFailed { source_path: "data/b.ron".into(), error: "broken".into() })
    );
    assert_eq!(revisions.revision(9), None);
    revisions.next_revision = u64::MAX;
    assert_eq!(revisions.record_available(5), u64::MAX);
}

fn k(type_tag: u64, key: u128) -> UntypedKey {
    UntypedKey { type_tag, key }
}

#[test]
fn rebuilding_the_same_dependencies_is_idempotent() {
    let mut graph = DependencyGraph::default();
    let parent = k(2, 10);
    let children = vec![k(1, 1), k(1, 2), k(1, 1)];
    graph.rebuild_for(parent, &children);
    let once = graph.edges.clone();
    graph.rebuild_for(parent, &children);
    assert_eq!(graph.edges, once);
    assert_eq!(graph.edges.len(), 2);
    assert_eq!(graph.parents_of(k(1, 1)), vec![parent]);
}

#[test]
fn removed_asset_leaves_the_graph() {
    let mut graph = DependencyGraph::new();
    graph.rebuild_for(k(2, 10), &vec![k(1, 1)]);
    graph.rebuild_for(k(2, 11), &vec![k(1, 1), k(1, 2)]);
    graph.remove(k(1, 1));
    assert!(graph.parents_of(k(1, 1)).is_empty());
    assert_eq!(graph.parents_of(k(1, 2)), vec![k(2, 11)]);
    graph.remove(k(2, 11));
    assert!(graph.edges.is_empty());
}

#[test]
fn draining_one_type_keeps_the_others_and_groups_triggers() {
    let mut graph = DependencyGraph::new();
    graph.rebuild_for(k(2, 10), &vec![k(1, 1), k(1, 2)]);
    graph.rebuild_for(k(3, 20), &vec![k(1, 1)]);
    let mut queue = CascadeQueue::new();
    queue.enqueue_parents(&graph, k(1, 1));
    queue.enqueue_parents(&graph, k(1, 2));
    queue.enqueue_parents(&graph, k(1, 1));
    assert_eq!(queue.pending.len(), 5);
    let groups = queue.take_for_type(2);
    assert_eq!(groups, vec![(10, vec![k(1, 1), k(1, 2)])]);
    assert!(queue.take_for_type(2).is_empty());
    assert_eq!(queue.pending.len(), 2);
    let others = queue.take_for_type(3);
    assert_eq!(others, vec![(20, vec![k(1, 1)])]);
    assert!(queue.pending.is_empty());
}

#[test]
fn registering_a_path_twice_records_it_once() {
    let mut registry = ConfigPathRegistry::new();
    registry.register("Npc", "data/npc.ron");
    registry.register("Npc", "data/npc.ron");
    registry.register("Item", "data/item.json");
    assert_eq!(registry.paths.get("Npc"), Some(&vec!["data/npc.ron".to_string()]));
    assert_eq!(registry.paths.get("Item"), Some(&vec!["data/item.json".to_string()]));
}

#[test]
fn diff_kind_follows_the_three_counts() {
    assert_eq!(DiffKind::from_counts(1, 0, 0), DiffKind::Added);
    assert_eq!(DiffKind::from_counts(0, 2, 0), DiffKind::Removed);
    assert_eq!(DiffKind::from_counts(0, 0, 3), DiffKind::Modified);
    assert_eq!(DiffKind::from_counts(1, 1, 0), DiffKind::Mixed);
    assert_eq!(DiffKind::from_counts(0, 0, 0), DiffKind::Mixed);
}

#[test]
fn changed_ids_is_the_union_of_the_delta() {
    let delta = ConfigDelta {
        added: ["new".to_string()].into_iter().collect(),
        removed: ["old".to_string()].into_iter().collect(),
        modified: ["changed".to_string(), "new".to_string()].into_iter().collect(),
    };
    let ids: HashSet<String> = delta.changed_ids();
    assert_eq!(ids.len(), 3);
    assert!(ids.contains("old") && ids.contains("changed") && ids.contains("new"));
    assert!(!delta.is_empty());
    let empty: ConfigDelta<String> = ConfigDelta::default();
    assert!(empty.is_empty());
    assert!(empty.changed_ids().is_empty());
}

#[test]
fn metrics_saturate_instead_of_wrapping() {
    let mut metrics: HmrMetrics<Marker> = HmrMetrics::new();
    metrics.record_diff(5);
    metrics.record_diff(3);
    assert_eq!(metrics.diff_runs, 2);
    assert_eq!(metrics.total_diff_time_ns, 8);
    assert_eq!(metrics.max_diff_time_ns, 5);
    metrics.record_config_clone(Some(100));
    metrics.record_config_clone(None);
    assert_eq!(metrics.config_clone_count, 2);
    assert_eq!(metrics.estimated_clone_bytes, 100);
    assert_eq!(metrics.unestimated_clone_count, 1);
    metrics.count_refresh(true);
    metrics.count_failure();
    metrics.count_removal();
    metrics.count_cascade();
    assert_eq!(
        (metrics.refreshes_dispatched, metrics.recoveries_dispatched, metrics.failures_reported),
        (1, 1, 1)
    );
    assert_eq!((metrics.removals_dispatched, metrics.cascades_dispatched), (1, 1));
    metrics.estimated_clone_bytes = u64::MAX - 1;
    metrics.record_config_clone(Some(10));
    assert_eq!(metrics.estimated_clone_bytes, u64::MAX);
}
