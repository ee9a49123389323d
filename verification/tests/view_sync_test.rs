use bevy_assets_hmr::dependency::{CascadeQueue, DependencyGraph};
use bevy_assets_hmr::pipeline::{cascade_refresh, finish_refresh, finish_removal, report_load_failure};
use bevy_assets_hmr::view::{route_active_views, sync_activated_views, ViewRecord};
use bevy_assets_hmr::{
    AppliedRevision, AssetEvent, AssetRevision, AssetRevisionStatus, ConfigAsset, ConfigDiff,
    ConfigRefresh, ConfigReloadFailed, ConfigRemoved, ConfigViewSync, HandleEntityCache, HmrMetrics,
    HmrSource, LastSnapshot, RefreshCause, RefreshDebouncer,
};
use std::collections::{HashMap, HashSet};

#[derive(Clone, Debug, PartialEq, Default)]
struct ViewDb {
    items: Vec<ViewItem>,
}

#[derive(Clone, Debug, PartialEq)]
struct ViewItem {
    id: String,
    value: u32,
}

impl ConfigDiff for ViewDb {
    type Id = String;
    fn diff(old: &Self, new: &Self) -> (HashSet<String>, HashSet<String>, HashSet<String>) {
        diff_items(&old.items, &new.items, |i| i.id.clone())
    }
}

type ViewAsset = ConfigAsset<ViewDb>;

fn diff_items<E: PartialEq>(
    old: &[E],
    new: &[E],
    key: impl Fn(&E) -> String,
) -> (HashSet<String>, HashSet<String>, HashSet<String>) {
    let old_ids: HashSet<String> = old.iter().map(&key).collect();
    let new_ids: HashSet<String> = new.iter().map(&key).collect();
    let added = new_ids.difference(&old_ids).cloned().collect();
    let removed = old_ids.difference(&new_ids).cloned().collect();
    let modified = old_ids
        .intersection(&new_ids)
        .filter(|id| old.iter().find(|e| &key(e) == *id) != new.iter().find(|e| &key(e) == *id))
        .cloned()
        .collect();
    (added, removed, modified)
}

/// One asset type's store and hot-reload state, driven frame by frame the
/// way the plugin's systems drive the library.
struct Hmr<A: HmrSource> {
    tag: u64,
    assets: HashMap<u128, A>,
    events: Vec<AssetEvent>,
    failures: Vec<(u128, String, String)>,
    debouncer: RefreshDebouncer<A>,
    snapshots: LastSnapshot<A>,
    revisions: AssetRevision<A>,
    metrics: HmrMetrics<A>,
    cache: HandleEntityCache<A>,
    estimator: Option<fn(&A::Config) -> usize>,
    refreshes: Vec<ConfigRefresh<A::Config>>,
    removed: Vec<ConfigRemoved<A::Config>>,
    failed: Vec<ConfigReloadFailed<A::Config>>,
    now: u128,
}

impl<A: HmrSource> Hmr<A> {
    fn new(tag: u64, window_nanos: u128) -> Self {
        Hmr {
            tag,
            assets: HashMap::new(),
            events: Vec::new(),
            failures: Vec::new(),
            debouncer: RefreshDebouncer::new(window_nanos),
            snapshots: LastSnapshot::new(),
            revisions: AssetRevision::new(),
            metrics: HmrMetrics::new(),
            cache: HandleEntityCache::new(),
            estimator: None,
            refreshes: Vec::new(),
            removed: Vec::new(),
            failed: Vec::new(),
            now: 1,
        }
    }

    fn insert(&mut self, id: u128, asset: A) {
        let event = if self.assets.contains_key(&id) {
            AssetEvent::Modified { id }
        } else {
            AssetEvent::Added { id }
        };
        self.assets.insert(id, asset);
        self.events.push(event);
    }

    fn remove(&mut self, id: u128) {
        if self.assets.remove(&id).is_some() {
            self.events.push(AssetEvent::Removed { id });
        }
    }

    fn fail(&mut self, id: u128, path: &str, error: &str) {
        self.failures.push((id, path.to_string(), error.to_string()));
    }

    fn estimate(&self, config: &A::Config) -> Option<usize> {
        match self.estimator {
            Some(f) => Some(f(config)),
            None => config.estimated_size_bytes(),
        }
    }

    fn update(&mut self, graph: &DependencyGraph, queue: &mut CascadeQueue) {
        for event in std::mem::take(&mut self.events) {
            self.debouncer.handle_event(event, self.now);
        }
        for (id, path, error) in std::mem::take(&mut self.failures) {
            let estimate = self.snapshots.map.get(&id).and_then(|c| self.estimate(c));
            let failure = report_load_failure(
                &self.snapshots,
                &mut self.revisions,
                &mut self.metrics,
                &self.cache,
                graph,
                queue,
                self.tag,
                id,
                path,
                error,
                estimate,
            );
            self.failed.push(failure);
        }
        for id in self.debouncer.take_due_removals(self.now) {
            if let Some(removed) = finish_removal(
                &mut self.snapshots,
                &mut self.revisions,
                &mut self.metrics,
                &self.cache,
                graph,
                queue,
                self.tag,
                id,
            ) {
                self.removed.push(removed);
            }
        }
        for id in self.debouncer.take_due_refreshes(self.now) {
            let estimate = self.assets.get(&id).and_then(|a| self.estimate(a.config()));
            let current = self.assets.get(&id).map(|a| (a.config(), a.source_path()));
            if let Some(refresh) = finish_refresh(
                &mut self.snapshots,
                &mut self.revisions,
                &mut self.metrics,
                &self.cache,
                graph,
                queue,
                self.tag,
                id,
                current,
                estimate,
            ) {
                self.refreshes.push(refresh);
            }
        }
        self.now += 1;
    }

    fn dispatch_cascades(&mut self, queue: &mut CascadeQueue) {
        for (parent, triggered_by) in queue.take_for_type(self.tag) {
            if let Some(asset) = self.assets.get(&parent) {
                let estimate = self.estimate(asset.config());
                let refresh = cascade_refresh(
                    &mut self.metrics,
                    &self.cache,
                    parent,
                    triggered_by,
                    asset.config(),
                    asset.source_path(),
                    estimate,
                );
                self.refreshes.push(refresh);
            }
        }
    }
}

/// The asset store plus the derived views bound to its assets.
struct App {
    hmr: Hmr<ViewAsset>,
    graph: DependencyGraph,
    queue: CascadeQueue,
    views: Vec<ViewRecord<ViewAsset>>,
    activated: Vec<u64>,
    syncs: Vec<ConfigViewSync<ViewAsset>>,
    seen_refreshes: usize,
    seen_removed: usize,
    seen_failed: usize,
}

impl App {
    fn new() -> Self {
        App {
            hmr: Hmr::new(1, 0),
            graph: DependencyGraph::new(),
            queue: CascadeQueue::new(),
            views: Vec::new(),
            activated: Vec::new(),
            syncs: Vec::new(),
            seen_refreshes: 0,
            seen_removed: 0,
            seen_failed: 0,
        }
    }

    fn spawn_view(&mut self, id: u128, active: bool) -> u64 {
        let entity = 1000 + self.views.len() as u64;
        self.hmr.cache.insert(entity, id);
        self.views.push(ViewRecord { entity, applied: AppliedRevision::new(id), active });
        entity
    }

    fn activate(&mut self, entity: u64) {
        for view in self.views.iter_mut() {
            if view.entity == entity {
                view.active = true;
            }
        }
        self.activated.push(entity);
    }

    fn insert_value(&mut self, id: u128, value: u32) {
        self.hmr.insert(
            id,
            ConfigAsset {
                raw: ViewDb { items: vec![ViewItem { id: "entry".into(), value }] },
                source_path: "data/view.ron".into(),
            },
        );
    }

    fn update_frames(&mut self, frames: usize) {
        for _ in 0..frames {
            self.hmr.update(&self.graph, &mut self.queue);
            self.hmr.dispatch_cascades(&mut self.queue);
            let mut targets: Vec<(u64, u128)> = Vec::new();
            for r in &self.hmr.refreshes[self.seen_refreshes..] {
                targets.extend(r.target_entities.iter().map(|e| (*e, r.asset_id)));
            }
            for r in &self.hmr.removed[self.seen_removed..] {
                targets.extend(r.target_entities.iter().map(|e| (*e, r.asset_id)));
            }
            for r in &self.hmr.failed[self.seen_failed..] {
                targets.extend(r.target_entities.iter().map(|e| (*e, r.asset_id)));
            }
            self.seen_refreshes = self.hmr.refreshes.len();
            self.seen_removed = self.hmr.removed.len();
            self.seen_failed = self.hmr.failed.len();
            let synced = route_active_views(&targets, &mut self.views, &self.hmr.revisions);
            self.syncs.extend(synced);
            if !self.activated.is_empty() {
                let wanted = std::mem::take(&mut self.activated);
                let mut picked: Vec<ViewRecord<ViewAsset>> = Vec::new();
                let mut rest: Vec<ViewRecord<ViewAsset>> = Vec::new();
                for view in std::mem::take(&mut self.views) {
                    if wanted.contains(&view.entity) {
                        picked.push(view);
                    } else {
                        rest.push(view);
                    }
                }
                let synced = sync_activated_views(&mut picked, &self.hmr.revisions);
                self.syncs.extend(synced);
                rest.extend(picked);
                self.views = rest;
            }
        }
    }

    fn applied(&self, entity: u64) -> u64 {
        self.views.iter().find(|v| v.entity == entity).unwrap().applied.revision
    }
}

fn make_id(seed: u128) -> u128 {
    seed
}

#[test]
fn active_view_receives_immediate_sync() {
    let mut app = App::new();
    let id = make_id(1);
    let entity = app.spawn_view(id, true);
    app.insert_value(id, 1);
    app.update_frames(3);
    app.syncs.clear();
    app.insert_value(id, 2);
    app.update_frames(3);
    assert_eq!(app.syncs.len(), 1);
    assert_eq!(app.syncs[0].entity, entity);
    assert_eq!(app.syncs[0].asset_id, id);
    assert_eq!(app.syncs[0].status, AssetRevisionStatus::Available);
    assert_eq!(app.syncs[0].revision, app.hmr.revisions.revision(id).unwrap());
}

#[test]
fn hidden_view_coalesces_multiple_updates_until_activation() {
    let mut app = App::new();
    let id = make_id(2);
    let entity = app.spawn_view(id, false);
    app.insert_value(id, 1);
    app.update_frames(3);
    app.syncs.clear();
    for value in [2, 3, 4] {
        app.insert_value(id, value);
        app.update_frames(3);
    }
    assert!(app.syncs.is_empty());
    assert_eq!(app.hmr.refreshes.len(), 3);
    assert_eq!(app.applied(entity), 0);
    app.activate(entity);
    app.update_frames(2);
    assert_eq!(app.syncs.len(), 1);
    assert_eq!(app.hmr.assets.get(&id).unwrap().raw.items[0].value, 4);
    assert_eq!(app.syncs[0].revision, app.hmr.revisions.revision(id).unwrap());
}

#[test]
fn shared_asset_only_syncs_active_view_until_hidden_view_activates() {
    let mut app = App::new();
    let id = make_id(3);
    let active = app.spawn_view(id, true);
    let hidden = app.spawn_view(id, false);
    app.insert_value(id, 1);
    app.update_frames(3);
    app.syncs.clear();
    app.insert_value(id, 2);
    app.update_frames(3);
    assert_eq!(app.syncs.iter().map(|sync| sync.entity).collect::<Vec<_>>(), vec![active]);
    app.syncs.clear();
    app.activate(hidden);
    app.update_frames(2);
    assert_eq!(app.syncs.len(), 1);
    assert_eq!(app.syncs[0].entity, hidden);
}

#[test]
fn hidden_view_observes_removed_state_when_activated() {
    let mut app = App::new();
    let id = make_id(4);
    let entity = app.spawn_view(id, false);
    app.insert_value(id, 1);
    app.update_frames(3);
    app.hmr.remove(id);
    app.update_frames(3);
    assert!(app.syncs.is_empty());
    app.activate(entity);
    app.update_frames(2);
    assert_eq!(app.syncs.len(), 1);
    assert_eq!(app.syncs[0].status, AssetRevisionStatus::Removed);
}

#[test]
fn hidden_view_observes_failure_and_last_valid_asset_when_activated() {
    let mut app = App::new();
    let id = make_id(6);
    let entity = app.spawn_view(id, false);
    app.insert_value(id, 7);
    app.update_frames(3);
    app.hmr.fail(id, "data/view.ron", "path is empty");
    app.update_frames(2);
    assert!(app.syncs.is_empty());
    app.activate(entity);
    app.update_frames(2);
    assert_eq!(app.syncs.len(), 1);
    assert!(matches!(app.syncs[0].status, AssetRevisionStatus::LoadFailed { .. }));
    assert_eq!(app.hmr.assets.get(&id).unwrap().raw.items[0].value, 7);
}

#[test]
fn failed_reload_then_same_content_dispatches_recovery() {
    let mut app = App::new();
    let id = make_id(5);
    let entity = app.spawn_view(id, true);
    app.insert_value(id, 1);
    app.update_frames(3);
    app.syncs.clear();
    app.hmr.refreshes.clear();
    app.seen_refreshes = 0;
    app.hmr.fail(id, "data/view.ron", "path is empty");
    app.update_frames(2);
    assert!(matches!(app.syncs.last().unwrap().status, AssetRevisionStatus::LoadFailed { .. }));
    assert_eq!(app.hmr.assets.get(&id).unwrap().raw.items[0].value, 1);
    app.syncs.clear();
    app.insert_value(id, 1);
    app.update_frames(3);
    let refreshes = &app.hmr.refreshes;
    assert_eq!(refreshes.len(), 1);
    assert_eq!(refreshes[0].cause, RefreshCause::Recovery);
    assert!(refreshes[0].delta.is_empty());
    assert_eq!(app.syncs.len(), 1);
    assert_eq!(app.syncs[0].entity, entity);
    assert_eq!(app.syncs[0].status, AssetRevisionStatus::Available);
}

#[test]
fn view_sync_is_emitted_once_per_revision() {
    let mut revisions: AssetRevision<ViewAsset> = AssetRevision::new();
    let mut applied = AppliedRevision::<ViewAsset>::new(9);
    assert!(!applied.is_stale(&revisions));
    assert_eq!(revisions.record_available(9), 1);
    assert!(applied.is_stale(&revisions));
    let sync = bevy_assets_hmr::view::emit_if_stale(1, &mut applied, &revisions).expect("stale view syncs");
    assert_eq!(sync.revision, 1);
    assert!(!applied.is_stale(&revisions));
    assert!(bevy_assets_hmr::view::emit_if_stale(1, &mut applied, &revisions).is_none());
    assert_eq!(revisions.record_removed(9), 2);
    assert_eq!(revisions.status(9), Some(&AssetRevisionStatus::Removed));
}
