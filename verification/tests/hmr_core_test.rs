use bevy_assets_hmr::dependency::{CascadeQueue, DependencyGraph};
use bevy_assets_hmr::event::UntypedKey;
use bevy_assets_hmr::pipeline::{cascade_refresh, finish_refresh, finish_removal, report_load_failure};
use bevy_assets_hmr::watcher::{watch_event, BoundHandle, WatchNotice};
use bevy_assets_hmr::{
    AssetBindCache, AssetEvent, AssetRevision, ConfigAsset, ConfigDiff, ConfigPathRegistry,
    ConfigRefresh, ConfigReloadFailed, ConfigRemoved, DiffKind, HandleEntityCache, HmrMetrics,
    HmrSource, LastSnapshot, RefreshCause, RefreshDebouncer,
};
use std::collections::{HashMap, HashSet};

#[derive(Clone, Debug, PartialEq, Default)]
struct TestDb {
    items: Vec<Item>,
}

#[derive(Clone, Debug, PartialEq, Eq, Hash)]
struct Item {
    id: String,
    n: u32,
}

impl TestDb {
    fn lookup(&self, id: &str) -> Option<&Item> {
        self.items.iter().find(|i| i.id == id)
    }
}

fn diff_items<E: PartialEq>(
    old: &[E],
    new: &[E],
    key: impl Fn(&E) -> String,
) -> (HashSet<String>, HashSet<String>, HashSet<String>) {
    let old_ids: HashSet<String> = old.iter().map(&key).collect();
    let new_ids: HashSet<String> = new.iter().map(&key).collect();
    let added = new_ids.difference(&old_ids).cloned().collect();
    let removed = old_ids.difference(&new_ids).cloned().collect();
    let modified = old_ids
        .intersection(&new_ids)
        .filter(|id| old.iter().find(|e| &key(e) == *id) != new.iter().find(|e| &key(e) == *id))
        .cloned()
        .collect();
    (added, removed, modified)
}

impl ConfigDiff for TestDb {
    type Id = String;
    fn diff(old: &Self, new: &Self) -> (HashSet<String>, HashSet<String>, HashSet<String>) {
        diff_items(&old.items, &new.items, |i| i.id.clone())
    }
}

fn estimate_test_db_bytes(config: &TestDb) -> usize {
    std::mem::size_of::<TestDb>()
        + config.items.capacity() * std::mem::size_of::<Item>()
        + config.items.iter().map(|item| item.id.capacity()).sum::<usize>()
}

type TestAsset = ConfigAsset<TestDb>;

/// One asset type's store and hot-reload state, driven frame by frame the
/// way the plugin's systems drive the library.
struct Hmr<A: HmrSource> {
    tag: u64,
    assets: HashMap<u128, A>,
    events: Vec<AssetEvent>,
    failures: Vec<(u128, String, String)>,
    debouncer: RefreshDebouncer<A>,
    snapshots: LastSnapshot<A>,
    revisions: AssetRevision<A>,
    metrics: HmrMetrics<A>,
    cache: HandleEntityCache<A>,
    estimator: Option<fn(&A::Config) -> usize>,
    refreshes: Vec<ConfigRefresh<A::Config>>,
    removed: Vec<ConfigRemoved<A::Config>>,
    failed: Vec<ConfigReloadFailed<A::Config>>,
    now: u128,
}

impl<A: HmrSource> Hmr<A> {
    fn new(tag: u64, window_nanos: u128) -> Self {
        Hmr {
            tag,
            assets: HashMap::new(),
            events: Vec::new(),
            failures: Vec::new(),
            debouncer: RefreshDebouncer::new(window_nanos),
            snapshots: LastSnapshot::new(),
            revisions: AssetRevision::new(),
            metrics: HmrMetrics::new(),
            cache: HandleEntityCache::new(),
            estimator: None,
            refreshes: Vec::new(),
            removed: Vec::new(),
            failed: Vec::new(),
            now: 1,
        }
    }

    fn insert(&mut self, id: u128, asset: A) {
        let event = if self.assets.contains_key(&id) {
            AssetEvent::Modified { id }
        } else {
            AssetEvent::Added { id }
        };
        self.assets.insert(id, asset);
        self.events.push(event);
    }

    fn remove(&mut self, id: u128) {
        if self.assets.remove(&id).is_some() {
            self.events.push(AssetEvent::Removed { id });
        }
    }

    fn fail(&mut self, id: u128, path: &str, error: &str) {
        self.failures.push((id, path.to_string(), error.to_string()));
    }

    fn estimate(&self, config: &A::Config) -> Option<usize> {
        match self.estimator {
            Some(f) => Some(f(config)),
            None => config.estimated_size_bytes(),
        }
    }

    fn update(&mut self, graph: &DependencyGraph, queue: &mut CascadeQueue) {
        for event in std::mem::take(&mut self.events) {
            self.debouncer.handle_event(event, self.now);
        }
        for (id, path, error) in std::mem::take(&mut self.failures) {
            let estimate = self.snapshots.map.get(&id).and_then(|c| self.estimate(c));
            let failure = report_load_failure(
                &self.snapshots,
                &mut self.revisions,
                &mut self.metrics,
                &self.cache,
                graph,
                queue,
                self.tag,
                id,
                path,
                error,
                estimate,
            );
            self.failed.push(failure);
        }
        for id in self.debouncer.take_due_removals(self.now) {
            if let Some(removed) = finish_removal(
                &mut self.snapshots,
                &mut self.revisions,
                &mut self.metrics,
                &self.cache,
                graph,
                queue,
                self.tag,
                id,
            ) {
                self.removed.push(removed);
            }
        }
        for id in self.debouncer.take_due_refreshes(self.now) {
            let estimate = self.assets.get(&id).and_then(|a| self.estimate(a.config()));
            let current = self.assets.get(&id).map(|a| (a.config(), a.source_path()));
            if let Some(refresh) = finish_refresh(
                &mut self.snapshots,
                &mut self.revisions,
                &mut self.metrics,
                &self.cache,
                graph,
                queue,
                self.tag,
                id,
                current,
                estimate,
            ) {
                self.refreshes.push(refresh);
            }
        }
        self.now += 1;
    }

    fn dispatch_cascades(&mut self, queue: &mut CascadeQueue) {
        for (parent, triggered_by) in queue.take_for_type(self.tag) {
            if let Some(asset) = self.assets.get(&parent) {
                let estimate = self.estimate(asset.config());
                let refresh = cascade_refresh(
                    &mut self.metrics,
                    &self.cache,
                    parent,
                    triggered_by,
                    asset.config(),
                    asset.source_path(),
                    estimate,
                );
                self.refreshes.push(refresh);
            }
        }
    }
}

fn db(items: &[(&str, u32)]) -> TestDb {
    TestDb { items: items.iter().map(|(id, n)| Item { id: id.to_string(), n: *n }).collect() }
}

fn asset(items: &[(&str, u32)], path: &str) -> TestAsset {
    ConfigAsset { raw: db(items), source_path: path.to_string() }
}

struct World {
    hmr: Hmr<TestAsset>,
    graph: DependencyGraph,
    queue: CascadeQueue,
}

impl World {
    fn new(window_nanos: u128) -> Self {
        World { hmr: Hmr::new(1, window_nanos), graph: DependencyGraph::new(), queue: CascadeQueue::new() }
    }

    fn frames(&mut self, n: usize) {
        for _ in 0..n {
            self.hmr.update(&self.graph, &mut self.queue);
            self.hmr.dispatch_cascades(&mut self.queue);
        }
    }
}

fn make_id(seed: u128) -> u128 {
    seed
}

#[test]
fn register_config_initializes_all_resources() {
    let world = World::new(50_000_000);
    assert!(world.hmr.debouncer.pending.is_empty());
    assert!(world.hmr.debouncer.pending_removed.is_empty());
    assert_eq!(world.hmr.debouncer.window_nanos, 50_000_000);
    assert!(world.hmr.snapshots.map.is_empty());
    assert!(world.hmr.cache.is_empty());
    let defaults: RefreshDebouncer<TestAsset> = Default::default();
    assert_eq!(defaults.window_nanos, 150_000_000);
}

#[test]
fn first_load_auto_initializes_snapshot_without_dispatch() {
    let mut world = World::new(0);
    let asset_id = make_id(100);
    world.hmr.insert(asset_id, asset(&[("a", 1)], "data/test.ron"));
    world.frames(3);
    assert!(world.hmr.refreshes.is_empty(), "no refresh should fire on first load");
    assert!(world.hmr.snapshots.map.contains_key(&asset_id), "snapshot auto-initialized");
}

#[test]
fn modified_event_with_prior_snapshot_dispatches_refresh_with_changed_ids() {
    let mut world = World::new(0);
    let asset_id = make_id(200);
    world.hmr.insert(asset_id, asset(&[("keep", 1), ("modify", 2), ("remove", 3)], "data/test.ron"));
    world.frames(2);
    world.hmr.insert(asset_id, asset(&[("keep", 1), ("modify", 20), ("add", 4)], "data/test.ron"));
    world.frames(3);

    let captured = world.hmr.refreshes.last().expect("a refresh should have been dispatched");
    let mut changed: Vec<_> = captured.changed_ids.iter().cloned().collect();
    changed.sort();
    assert_eq!(changed, vec!["add".to_string(), "modify".to_string(), "remove".to_string()]);
    assert_eq!(captured.asset_id, asset_id);
    assert_eq!(captured.delta.added, ["add".to_string()].into());
    assert_eq!(captured.delta.removed, ["remove".to_string()].into());
    assert_eq!(captured.delta.modified, ["modify".to_string()].into());
    assert_eq!(captured.cause, RefreshCause::Direct);
    assert_eq!(captured.diff_kind, DiffKind::Mixed);

    let stored = world.hmr.snapshots.map.get(&asset_id).expect("snapshot should exist");
    assert_eq!(stored.items.len(), 3);
    assert!(stored.lookup("add").is_some());
    assert!(stored.lookup("remove").is_none());
    assert_eq!(captured.source_path, "data/test.ron");
}

#[test]
fn refresh_metrics_report_diff_time_and_config_clone_pressure() {
    let mut world = World::new(0);
    let asset_id = make_id(205);
    world.hmr.insert(asset_id, asset(&[("entry", 1)], "data/metrics.ron"));
    world.frames(3);
    world.hmr.metrics = HmrMetrics::default();
    world.hmr.estimator = Some(estimate_test_db_bytes);
    world.hmr.insert(asset_id, asset(&[("entry", 2)], "data/metrics.ron"));
    world.frames(3);

    let metrics = &world.hmr.metrics;
    assert_eq!(metrics.diff_runs, 1);
    assert_eq!(metrics.refreshes_dispatched, 1);
    assert!(metrics.total_diff_time_ns > 0);
    assert_eq!(metrics.config_clone_count, 2);
    assert_eq!(metrics.unestimated_clone_count, 0);
    let refreshed = db(&[("entry", 2)]);
    assert_eq!(metrics.estimated_clone_bytes, (2 * estimate_test_db_bytes(&refreshed)) as u64);
}

#[test]
fn same_config_type_multiple_assets_keep_distinct_asset_ids() {
    let mut world = World::new(0);
    let first_id = make_id(210);
    let second_id = make_id(211);
    for (id, path) in [(first_id, "data/first.ron"), (second_id, "data/second.ron")] {
        world.hmr.insert(id, asset(&[("entry", 1)], path));
    }
    world.frames(3);
    world.hmr.refreshes.clear();
    for (id, path, value) in [(first_id, "data/first.ron", 2), (second_id, "data/second.ron", 3)] {
        world.hmr.insert(id, asset(&[("entry", value)], path));
    }
    world.frames(3);
    let captured = &world.hmr.refreshes;
    assert_eq!(captured.len(), 2);
    assert!(captured.iter().any(|event| event.asset_id == first_id));
    assert!(captured.iter().any(|event| event.asset_id == second_id));
}

#[test]
fn same_config_type_registrations_keep_deduplicated_paths_and_handles() {
    let mut registry = ConfigPathRegistry::default();
    let type_path = "bevy_assets_hmr::ConfigAsset<hmr_core_test::TestDb>";
    registry.register(type_path, "data/test.ron");
    registry.register(type_path, "data/first.ron");
    registry.register(type_path, "data/second.ron");
    registry.register(type_path, "data/first.ron");
    assert_eq!(
        registry.paths.get(type_path),
        Some(&vec!["data/test.ron".to_string(), "data/first.ron".to_string(), "data/second.ron".to_string()])
    );
}

#[test]
fn same_config_type_assets_remove_and_fail_independently() {
    let mut world = World::new(0);
    let removed_id = make_id(212);
    let failed_id = make_id(213);
    for (id, path, value) in [(removed_id, "data/removed.ron", 1), (failed_id, "data/failed.ron", 2)] {
        world.hmr.insert(id, asset(&[("entry", value)], path));
    }
    world.frames(3);
    world.hmr.remove(removed_id);
    world.hmr.fail(failed_id, "data/failed.ron", "path is empty");
    world.frames(3);

    let removed = world.hmr.removed.last().expect("the removed file should dispatch ConfigRemoved");
    assert_eq!(removed.asset_id, removed_id);
    assert_eq!(removed.source_path, "data/removed.ron");
    let failed = world
        .hmr
        .failed
        .iter()
        .find(|event| event.asset_id == failed_id)
        .expect("the failed file should dispatch ConfigReloadFailed");
    assert_eq!(failed.source_path, "data/failed.ron");
    assert_eq!(failed.current_config.as_ref().unwrap().items[0].n, 2);
    assert!(world.hmr.assets.get(&failed_id).is_some());
}

#[test]
fn empty_diff_is_not_dispatched() {
    let mut world = World::new(0);
    let asset_id = make_id(300);
    world.hmr.insert(asset_id, asset(&[("a", 1)], "data/test.ron"));
    world.frames(2);
    world.hmr.insert(asset_id, asset(&[("a", 1)], "data/test.ron"));
    world.frames(3);
    assert!(world.hmr.refreshes.is_empty(), "empty diff should not dispatch a refresh");
}

#[test]
fn despawned_entity_is_removed_from_cache() {
    let mut world = World::new(50_000_000);
    let asset_id = make_id(42);
    let entity = 7u64;
    world.hmr.cache.insert(entity, asset_id);
    world.frames(3);
    assert!(world.hmr.cache.get_entities(&asset_id).unwrap().contains(&entity));
    world.hmr.cache.remove(entity);
    world.frames(3);
    let bound: Vec<u64> =
        world.hmr.cache.get_entities(&asset_id).map(|s| s.iter().copied().collect()).unwrap_or_default();
    assert!(!bound.contains(&entity), "despawned entity must be removed from cache, got {bound:?}");
}

#[test]
fn changed_handle_updates_both_cache_directions() {
    let mut world = World::new(0);
    let old_id = make_id(43);
    let new_id = make_id(44);
    let entity = 9u64;
    world.hmr.cache.insert(entity, old_id);
    world.frames(1);
    world.hmr.cache.insert(entity, new_id);
    world.frames(1);
    let cache = &world.hmr.cache;
    assert!(cache.get_entities(&old_id).is_none());
    assert!(cache.get_entities(&new_id).unwrap().contains(&entity));
    assert_eq!(cache.entity_to_handle[&entity], new_id);
}

#[test]
fn removed_binding_component_is_removed_from_cache() {
    let mut world = World::new(0);
    let asset_id = make_id(45);
    let entity = 11u64;
    world.hmr.cache.insert(entity, asset_id);
    world.frames(1);
    world.hmr.cache.remove(entity);
    world.frames(1);
    assert!(!world.hmr.cache.entity_to_handle.contains_key(&entity));
    assert!(world.hmr.cache.get_entities(&asset_id).is_none());
}

#[test]
fn removed_asset_dispatches_config_removed_with_source_path() {
    let mut world = World::new(0);
    let asset_id = make_id(500);
    world.hmr.insert(asset_id, asset(&[("a", 1)], "data/deleted.ron"));
    world.frames(3);
    assert!(world.hmr.removed.is_empty(), "no ConfigRemoved should fire on initial load");
    world.hmr.remove(asset_id);
    world.frames(3);
    let captured = world.hmr.removed.last().expect("a ConfigRemoved should have been dispatched");
    assert_eq!(captured.source_path, "data/deleted.ron");
    assert_eq!(captured.asset_id, asset_id);
    assert!(!world.hmr.snapshots.map.contains_key(&asset_id));
    assert!(!world.hmr.snapshots.source_paths.contains_key(&asset_id));
}

#[test]
fn removed_asset_without_prior_snapshot_does_not_dispatch() {
    let mut world = World::new(0);
    let asset_id = make_id(600);
    world.hmr.insert(asset_id, asset(&[("a", 1)], "data/never.ron"));
    world.hmr.remove(asset_id);
    world.frames(5);
    assert!(world.hmr.removed.is_empty());
}

#[test]
fn asset_load_failure_dispatches_config_reload_failed_and_keeps_old_asset() {
    let mut world = World::new(0);
    let asset_id = make_id(200);
    world.hmr.insert(asset_id, asset(&[("x", 42)], "data/test.ron"));
    world.frames(3);
    assert!(world.hmr.snapshots.map.contains_key(&asset_id), "snapshot should exist after first load");
    world.hmr.fail(asset_id, "data/test.ron", "path is empty");
    world.frames(3);
    let evt = world
        .hmr
        .failed
        .iter()
        .find(|event| event.asset_id == asset_id)
        .expect("ConfigReloadFailed should be dispatched");
    assert_eq!(evt.source_path, "data/test.ron");
    let current_config = evt.current_config.as_ref().expect("failed reload should expose the last valid config");
    assert_eq!(current_config.items[0].id, "x");
    assert_eq!(current_config.items[0].n, 42);
    assert!(evt.error.contains("empty path") || evt.error.contains("path is empty"));
    let retained = world.hmr.assets.get(&asset_id).expect("the last valid asset should remain available");
    assert_eq!(retained.raw.items[0].n, 42);
    assert_eq!(retained.source_path, "data/test.ron");
}

#[test]
fn initial_load_failure_dispatches_without_current_config() {
    let mut world = World::new(0);
    let asset_id = make_id(201);
    world.hmr.fail(asset_id, "data/missing.ron", "path is empty");
    world.frames(3);
    let event = world
        .hmr
        .failed
        .iter()
        .find(|event| event.asset_id == asset_id)
        .expect("initial load failures should also be observable");
    assert_eq!(event.source_path, "data/missing.ron");
    assert!(event.current_config.is_none());
}

#[test]
fn subsequent_save_within_500ms_reaches_final_state() {
    let mut world = World::new(0);
    let asset_id = make_id(700);
    world.hmr.insert(asset_id, asset(&[("a", 1)], "data/test.ron"));
    world.frames(3);
    world.hmr.insert(asset_id, asset(&[("a", 2)], "data/test.ron"));
    world.frames(3);
    assert_eq!(world.hmr.refreshes.last().expect("first modification should dispatch").new_config.items[0].n, 2);
    world.hmr.insert(asset_id, asset(&[("a", 3)], "data/test.ron"));
    world.hmr.refreshes.clear();
    world.frames(5);
    assert_eq!(
        world.hmr.refreshes.last().expect("a second save within 500ms must not be dropped").new_config.items[0].n,
        3
    );
    assert_eq!(world.hmr.snapshots.map[&asset_id].items[0].n, 3);
}

#[test]
fn removed_then_added_in_same_window_refreshes_final_asset() {
    let mut world = World::new(0);
    let asset_id = make_id(800);
    world.hmr.insert(asset_id, asset(&[("a", 1)], "data/test.ron"));
    world.frames(3);
    world.hmr.refreshes.clear();
    world.hmr.remove(asset_id);
    world.hmr.insert(asset_id, asset(&[("a", 3)], "data/test.ron"));
    world.frames(5);
    assert_eq!(
        world.hmr.refreshes.last().expect("Removed followed by Added should refresh the final asset").new_config.items
            [0]
        .n,
        3
    );
    assert!(world.hmr.removed.is_empty(), "the superseded Removed event must not be dispatched");
    assert_eq!(world.hmr.snapshots.map[&asset_id].items[0].n, 3);
}

#[test]
fn modified_then_removed_in_same_window_dispatches_only_removed() {
    let mut world = World::new(0);
    let asset_id = make_id(801);
    world.hmr.insert(asset_id, asset(&[("a", 1)], "data/test.ron"));
    world.frames(3);
    world.hmr.insert(asset_id, asset(&[("a", 2)], "data/test.ron"));
    world.hmr.remove(asset_id);
    world.hmr.refreshes.clear();
    world.frames(3);
    assert!(world.hmr.refreshes.is_empty(), "the superseded Modified event must not be dispatched");
    assert!(!world.hmr.removed.is_empty(), "a final Removed event must be dispatched");
    assert!(!world.hmr.snapshots.map.contains_key(&asset_id));
}

#[test]
fn debounce_window_holds_a_refresh_until_it_elapses() {
    let mut world = World::new(3);
    let asset_id = make_id(802);
    world.hmr.insert(asset_id, asset(&[("a", 1)], "data/test.ron"));
    world.frames(4);
    assert!(world.hmr.snapshots.map.contains_key(&asset_id));
    world.hmr.insert(asset_id, asset(&[("a", 2)], "data/test.ron"));
    world.frames(1);
    assert!(world.hmr.refreshes.is_empty());
    world.frames(3);
    assert_eq!(world.hmr.refreshes.len(), 1);
}

#[test]
fn cache_validation_system_corrects_drift() {
    let mut world = World::new(50_000_000);
    let asset_id = make_id(900);
    let entity = 3u64;
    world.hmr.cache.insert(entity, asset_id);
    world.frames(3);
    assert!(world.hmr.cache.get_entities(&asset_id).is_some());
    let wrong_id = make_id(901);
    world.hmr.cache.remove(entity);
    world.hmr.cache.insert(entity, wrong_id);
    assert_eq!(world.hmr.cache.entity_to_handle.len(), 1);
    assert_eq!(world.hmr.cache.entity_to_handle[&entity], wrong_id);
    let replaced = world.hmr.cache.validate(&vec![(entity, asset_id)]);
    assert!(replaced);
    assert_eq!(world.hmr.cache.entity_to_handle[&entity], asset_id);
    assert!(world.hmr.cache.get_entities(&wrong_id).is_none());
}

// ---- dependency cascade: a parent asset holding a handle to a child ----

#[derive(Clone, Debug, PartialEq, Default)]
struct ChildDb {
    items: Vec<(String, u32)>,
}

impl ConfigDiff for ChildDb {
    type Id = String;
    fn diff(old: &Self, new: &Self) -> (HashSet<String>, HashSet<String>, HashSet<String>) {
        diff_items(&old.items, &new.items, |i| i.0.clone())
    }
}

impl HmrSource for ChildDb {
    type Config = ChildDb;
    fn config(&self) -> &ChildDb {
        self
    }
}

#[derive(Clone, Debug, PartialEq, Default)]
struct ParentDb {
    items: Vec<String>,
    child: Option<u128>,
}

impl ConfigDiff for ParentDb {
    type Id = String;
    fn diff(old: &Self, new: &Self) -> (HashSet<String>, HashSet<String>, HashSet<String>) {
        diff_items(&old.items, &new.items, |i| i.clone())
    }
}

impl HmrSource for ParentDb {
    type Config = ParentDb;
    fn config(&self) -> &ParentDb {
        self
    }
    fn source_path(&self) -> &str {
        ""
    }
}

const CHILD: u64 = 1;
const PARENT: u64 = 2;

struct CascadeWorld {
    children: Hmr<ChildDb>,
    parents: Hmr<ParentDb>,
    graph: DependencyGraph,
    queue: CascadeQueue,
}

impl CascadeWorld {
    fn new() -> Self {
        CascadeWorld {
            children: Hmr::new(CHILD, 0),
            parents: Hmr::new(PARENT, 0),
            graph: DependencyGraph::new(),
            queue: CascadeQueue::new(),
        }
    }

    fn frames(&mut self, n: usize) {
        for _ in 0..n {
            for event in self.parents.events.clone() {
                match event {
                    AssetEvent::Added { id } | AssetEvent::Modified { id } => {
                        if let Some(parent) = self.parents.assets.get(&id) {
                            let children: Vec<UntypedKey> =
                                parent.child.iter().map(|c| UntypedKey { type_tag: CHILD, key: *c }).collect();
                            self.graph.rebuild_for(UntypedKey { type_tag: PARENT, key: id }, &children);
                        }
                    }
                    _ => {}
                }
            }
            let removed_children: Vec<u128> = self
                .children
                .events
                .iter()
                .filter_map(|event| match event {
                    AssetEvent::Removed { id } => Some(*id),
                    _ => None,
                })
                .collect();
            self.children.update(&self.graph, &mut self.queue);
            for id in removed_children {
                self.graph.remove(UntypedKey { type_tag: CHILD, key: id });
            }
            self.parents.update(&self.graph, &mut self.queue);
            self.children.dispatch_cascades(&mut self.queue);
            self.parents.dispatch_cascades(&mut self.queue);
        }
    }
}

fn child(v: u32) -> ChildDb {
    ChildDb { items: vec![("c1".to_string(), v)] }
}

#[test]
fn dependency_graph_is_populated_on_parent_load() {
    let mut world = CascadeWorld::new();
    let child_id = 1100;
    world.children.insert(child_id, child(1));
    let parent_id = 1101;
    world.parents.insert(parent_id, ParentDb { items: vec!["p1".into()], child: Some(child_id) });
    world.frames(10);
    let parents = world.graph.parents_of(UntypedKey { type_tag: CHILD, key: child_id });
    assert!(!parents.is_empty(), "DependencyGraph should record child -> parent edge");
    assert!(parents.iter().any(|p| *p == UntypedKey { type_tag: PARENT, key: parent_id }));
}

#[test]
fn cascade_triggers_config_refresh_on_parent() {
    let mut world = CascadeWorld::new();
    let child_id = 1200;
    world.children.insert(child_id, child(1));
    let parent_id = 1201;
    world.parents.insert(parent_id, ParentDb { items: vec!["p1".into()], child: Some(child_id) });
    world.frames(5);
    world.parents.refreshes.clear();
    world.children.insert(child_id, child(999));
    world.frames(10);
    let evt = world.parents.refreshes.last().expect("cascade should have fired ConfigRefresh<ParentDb>");
    assert!(evt.changed_ids.is_empty());
    assert_eq!(evt.asset_id, parent_id);
    match &evt.cause {
        RefreshCause::Dependency { triggered_by } => {
            assert_eq!(triggered_by, &vec![UntypedKey { type_tag: CHILD, key: child_id }]);
        }
        cause => panic!("expected dependency cause, got {cause:?}"),
    }
    assert!(evt.source_path.is_empty());
}

#[test]
fn cascade_does_not_fire_for_unrelated_types() {
    let mut world = CascadeWorld::new();
    let parent_id = 1300;
    world.parents.insert(parent_id, ParentDb { items: vec!["p1".into()], child: None });
    let unrelated_child_id = 1301;
    world.children.insert(unrelated_child_id, ChildDb { items: vec![("uc1".to_string(), 1)] });
    world.frames(5);
    world.parents.refreshes.clear();
    world.children.insert(unrelated_child_id, ChildDb { items: vec![("uc1".to_string(), 2)] });
    world.frames(10);
    let parents = world.graph.parents_of(UntypedKey { type_tag: CHILD, key: unrelated_child_id });
    assert!(parents.is_empty(), "unrelated child should have no parents in the graph");
    assert!(world.parents.refreshes.is_empty(), "no cascade should fire for unrelated types");
}

#[test]
fn cascade_triggers_on_child_removed() {
    let mut world = CascadeWorld::new();
    let child_id = 1400;
    world.children.insert(child_id, child(1));
    let parent_id = 1401;
    world.parents.insert(parent_id, ParentDb { items: vec!["p1".into()], child: Some(child_id) });
    world.frames(10);
    world.parents.refreshes.clear();
    world.children.remove(child_id);
    world.frames(10);
    let evt = world.parents.refreshes.last().expect("cascade should fire after child removal");
    assert!(evt.changed_ids.is_empty());
    assert_eq!(evt.asset_id, parent_id);
    match &evt.cause {
        RefreshCause::Dependency { triggered_by } => {
            assert_eq!(triggered_by, &vec![UntypedKey { type_tag: CHILD, key: child_id }]);
        }
        cause => panic!("expected dependency cause, got {cause:?}"),
    }
}

#[test]
fn cascade_triggers_on_child_load_failure() {
    let mut world = CascadeWorld::new();
    let child_id = 1500;
    world.children.insert(child_id, child(1));
    let parent_id = 1501;
    world.parents.insert(parent_id, ParentDb { items: vec!["p1".into()], child: Some(child_id) });
    world.frames(10);
    world.parents.refreshes.clear();
    world.children.fail(child_id, "data/child.ron", "path is empty");
    world.frames(10);
    let evt = world.parents.refreshes.last().expect("child load failure should cascade to the parent");
    assert_eq!(evt.asset_id, parent_id);
    match &evt.cause {
        RefreshCause::Dependency { triggered_by } => {
            assert_eq!(triggered_by, &vec![UntypedKey { type_tag: CHILD, key: child_id }]);
        }
        cause => panic!("expected dependency cause, got {cause:?}"),
    }
    world.parents.refreshes.clear();
    world.children.insert(child_id, child(1));
    world.frames(10);
    assert!(!world.parents.refreshes.is_empty(), "child recovery should also cascade to the parent");
}

// ---- watch_asset: file-level notices for arbitrary asset types ----

struct DummyTexture;

#[test]
fn watch_asset_dispatches_asset_changed_on_modified() {
    let mut cache: AssetBindCache<DummyTexture> = AssetBindCache::new();
    let asset_id = 700u128;
    match watch_event(&mut cache, &vec![], AssetEvent::Added { id: asset_id }) {
        Some(WatchNotice::Changed(evt)) => assert_eq!(evt.asset_id, asset_id),
        _ => panic!("AssetChanged should fire on Added"),
    }
    match watch_event(&mut cache, &vec![], AssetEvent::Modified { id: asset_id }) {
        Some(WatchNotice::Changed(evt)) => assert_eq!(evt.asset_id, asset_id),
        _ => panic!("AssetChanged should fire on Modified"),
    }
}

#[test]
fn watch_asset_tracks_bound_entities() {
    let mut cache: AssetBindCache<DummyTexture> = AssetBindCache::new();
    let asset_id = 800u128;
    let entity = 5u64;
    bevy_assets_hmr::watcher::register_binding(&mut cache, entity, BoundHandle { id: asset_id, path: None });
    match watch_event(&mut cache, &vec![], AssetEvent::Added { id: asset_id }) {
        Some(WatchNotice::Changed(evt)) => assert!(evt.target_entities.contains(&entity)),
        _ => panic!("AssetChanged should fire on Added"),
    }
}

#[test]
fn watch_asset_despawned_entity_removed_from_cache() {
    let mut cache: AssetBindCache<DummyTexture> = AssetBindCache::new();
    let asset_id = 900u128;
    let entity = 6u64;
    cache.insert(entity, asset_id);
    assert!(cache.get_entities(&asset_id).unwrap().contains(&entity));
    cache.remove(entity);
    let bound: Vec<u64> = cache.get_entities(&asset_id).map(|s| s.iter().copied().collect()).unwrap_or_default();
    assert!(!bound.contains(&entity));
}

#[test]
fn watch_asset_removal_dispatches_then_clears_cached_path() {
    let mut cache: AssetBindCache<DummyTexture> = AssetBindCache::new();
    let asset_id = 901u128;
    cache.record_path(asset_id, "textures/removed.png".into());
    let _ = watch_event(&mut cache, &vec![], AssetEvent::Added { id: asset_id });
    match watch_event(&mut cache, &vec![], AssetEvent::Removed { id: asset_id }) {
        Some(WatchNotice::Removed(removed)) => assert_eq!(removed.source_path, "textures/removed.png"),
        _ => panic!("AssetRemoved should be dispatched before path cleanup"),
    }
    assert!(cache.get_path(&asset_id).is_none());
}

#[test]
fn watch_added_recovers_the_path_from_a_live_binding() {
    let mut cache: AssetBindCache<DummyTexture> = AssetBindCache::new();
    let bindings = vec![
        BoundHandle { id: 1, path: Some("textures/other.png".into()) },
        BoundHandle { id: 2, path: Some("textures/hero.png".into()) },
    ];
    match watch_event(&mut cache, &bindings, AssetEvent::Added { id: 2 }) {
        Some(WatchNotice::Changed(evt)) => assert_eq!(evt.source_path, "textures/hero.png"),
        _ => panic!("AssetChanged should fire on Added"),
    }
    assert_eq!(cache.get_path(&2), Some("textures/hero.png"));
    assert!(watch_event(&mut cache, &bindings, AssetEvent::Unused { id: 2 }).is_none());
}

#[test]
fn primed_snapshot_keeps_the_first_load_silent() {
    let mut world = World::new(0);
    let asset_id = make_id(950);
    let initial = db(&[("a", 1)]);
    world.hmr.snapshots.prime(asset_id, &initial, "levels/level_1.level");
    world.hmr.insert(asset_id, asset(&[("a", 1)], "levels/level_1.level"));
    world.frames(3);
    assert!(world.hmr.refreshes.is_empty());
    assert_eq!(world.hmr.snapshots.source_paths[&asset_id], "levels/level_1.level");
    let mut unnamed: LastSnapshot<TestAsset> = LastSnapshot::new();
    unnamed.prime(1, &initial, "");
    assert!(unnamed.map.contains_key(&1));
    assert!(unnamed.source_paths.is_empty());
}
