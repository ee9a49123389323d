use bevy_assets_hmr::{
    extract_reflected_handles, merge_target_entities, ReflectHandleCache, ReflectHandleTrackingMetrics,
    ReflectedValue, UntypedKey,
};
use bevy_assets_hmr::tracking::{note_archetype, prune_despawned, validation_due, walk_needed};
use std::collections::{HashMap, HashSet};

const TRACKED: u64 = 77;

fn key(uuid: u128) -> UntypedKey {
    UntypedKey { type_tag: TRACKED, key: uuid }
}

fn h(uuid: u128) -> ReflectedValue {
    ReflectedValue::Handle { id: key(uuid) }
}

fn node(children: Vec<ReflectedValue>) -> ReflectedValue {
    ReflectedValue::Composite { children }
}

fn some(value: ReflectedValue) -> ReflectedValue {
    node(vec![value])
}

fn none() -> ReflectedValue {
    node(vec![])
}

#[test]
fn extractor_walks_nested_containers_and_deduplicates() {
    let (first, second) = (1, 2);
    let value = node(vec![
        h(first),
        some(h(second)),
        node(vec![h(first), h(second)]),
        node(vec![h(first)]),
        node(vec![h(second), some(h(first))]),
        node(vec![h(second)]),
    ]);
    let extraction = extract_reflected_handles(&value, 32);
    assert_eq!(extraction.handles.len(), 2);
    assert!(extraction.handles.contains(&key(first)));
    assert!(extraction.handles.contains(&key(second)));
    assert!(!extraction.max_depth_reached);

    let map = node(vec![node(vec![]), h(first), node(vec![]), h(second)]);
    assert_eq!(extract_reflected_handles(&map, 32).handles.len(), 2);
    let set = node(vec![h(first), h(second)]);
    assert_eq!(extract_reflected_handles(&set, 32).handles.len(), 2);
    let tuple_struct = node(vec![h(first), some(h(second))]);
    assert_eq!(extract_reflected_handles(&tuple_struct, 32).handles.len(), 2);
    let tuple_variant = node(vec![h(first), some(h(second))]);
    assert_eq!(extract_reflected_handles(&tuple_variant, 32).handles.len(), 2);
    let handle_map = node(vec![h(first), h(second)]);
    assert_eq!(extract_reflected_handles(&handle_map, 32).handles.len(), 2);
}

#[test]
fn extractor_obeys_depth_limit() {
    let value = node(vec![h(3), none(), node(vec![]), node(vec![h(4)]), node(vec![h(5), none()]), node(vec![h(6), none()])]);
    let extraction = extract_reflected_handles(&value, 0);
    assert!(extraction.max_depth_reached);
    assert!(extraction.handles.is_empty());
    assert_eq!(extraction.visited_values, 1);
}

#[test]
fn extractor_counts_every_visited_node_and_reports_unregistered_handles() {
    let value = node(vec![h(1), ReflectedValue::UnregisteredHandle { type_tag: 9 }, node(vec![h(1)])]);
    let extraction = extract_reflected_handles(&value, 32);
    assert_eq!(extraction.visited_values, 5);
    assert_eq!(extraction.handles, vec![key(1)]);
    assert!(extraction.missing_handle_type_data.contains(&9));
    assert!(!extraction.max_depth_reached);
    let deep = node(vec![node(vec![h(2)])]);
    let limited = extract_reflected_handles(&deep, 1);
    assert!(limited.max_depth_reached);
    assert!(limited.handles.is_empty());
    assert_eq!(limited.visited_values, 2);
}

fn entities(cache: &ReflectHandleCache, asset: UntypedKey) -> HashSet<u64> {
    cache.entities_for(asset).cloned().unwrap_or_default()
}

const HANDLE_COMPONENT: u64 = 1;
const SECONDARY_COMPONENT: u64 = 2;

#[test]
fn reflected_component_index_updates_and_cleans_up() {
    let (first, second) = (key(10), key(11));
    let entity = 42u64;
    let mut cache = ReflectHandleCache::default();
    let updates = cache.refresh_entity(entity, None, &vec![(HANDLE_COMPONENT, vec![first, second, first])]);
    assert_eq!(updates, 1);
    assert!(entities(&cache, first).contains(&entity));
    assert!(entities(&cache, second).contains(&entity));

    cache.refresh_entity(entity, None, &vec![(HANDLE_COMPONENT, vec![second])]);
    assert!(!entities(&cache, first).contains(&entity));
    assert!(entities(&cache, second).contains(&entity));

    let keep: HashSet<u64> = HashSet::new();
    cache.refresh_entity(entity, Some(&keep), &vec![]);
    assert!(cache.assets_for(entity).is_none());
    assert!(cache.entities_for(second).is_none());

    cache.remove_entity(entity);
    assert!(cache.entities_for(second).is_none());
    assert!(cache.assets_for(entity).is_none());

    let replacement = 43u64;
    cache.refresh_entity(replacement, None, &vec![(HANDLE_COMPONENT, vec![second])]);
    assert!(entities(&cache, second).contains(&replacement));
}

#[test]
fn tracker_keeps_multiple_component_asset_edges_independent() {
    let (first, second) = (key(12), key(13));
    let entity = 5u64;
    let mut cache = ReflectHandleCache::new();
    cache.refresh_entity(entity, None, &vec![(HANDLE_COMPONENT, vec![first]), (SECONDARY_COMPONENT, vec![second])]);
    assert_eq!(cache.assets_for(entity).map(|assets| assets.len()), Some(2));
    let keep: HashSet<u64> = [SECONDARY_COMPONENT].into_iter().collect();
    cache.refresh_entity(entity, Some(&keep), &vec![]);
    assert!(cache.entities_for(first).is_none());
    assert!(entities(&cache, second).contains(&entity));
    assert_eq!(cache.component_assets(entity, SECONDARY_COMPONENT), Some(&vec![second]));
    assert!(cache.component_assets(entity, HANDLE_COMPONENT).is_none());
}

#[test]
fn unchanged_component_update_is_not_counted() {
    let asset = key(14);
    let mut cache = ReflectHandleCache::new();
    assert_eq!(cache.refresh_entity(1, None, &vec![(HANDLE_COMPONENT, vec![asset])]), 1);
    assert_eq!(cache.refresh_entity(1, None, &vec![(HANDLE_COMPONENT, vec![asset, asset])]), 0);
    assert_eq!(cache.refresh_entity(1, None, &vec![(SECONDARY_COMPONENT, vec![])]), 1);
    assert_eq!(cache.assets_for(1), Some(&vec![asset]));
}

#[test]
fn asset_changed_merges_reflected_and_explicit_targets_once() {
    let asset = key(15);
    let entity = 8u64;
    let mut cache = ReflectHandleCache::new();
    cache.refresh_entity(entity, None, &vec![(HANDLE_COMPONENT, vec![asset])]);
    let mut targets = vec![entity];
    merge_target_entities(Some(&cache), asset, &mut targets);
    assert_eq!(targets, vec![entity]);
}

#[test]
fn config_refresh_targets_reflected_component_without_config_bind() {
    let asset = key(30);
    let entity = 12u64;
    let mut cache = ReflectHandleCache::new();
    cache.refresh_entity(entity, None, &vec![(HANDLE_COMPONENT, vec![asset])]);
    let mut targets: Vec<u64> = Vec::new();
    merge_target_entities(Some(&cache), asset, &mut targets);
    assert_eq!(targets, vec![entity]);
}

#[test]
fn tracker_resource_is_optional_for_existing_apps() {
    let mut targets = vec![3u64, 1];
    merge_target_entities(None, key(20), &mut targets);
    assert_eq!(targets, vec![3, 1]);
    let metrics = ReflectHandleTrackingMetrics::default();
    assert_eq!(metrics.frames_scanned, 0);
    assert_eq!(metrics.scan_time, std::time::Duration::ZERO);
}

#[test]
fn merged_targets_are_sorted_and_unique() {
    let asset = key(31);
    let mut cache = ReflectHandleCache::new();
    for entity in [9u64, 2, 5] {
        cache.refresh_entity(entity, None, &vec![(HANDLE_COMPONENT, vec![asset])]);
    }
    let mut targets = vec![5u64, 7];
    merge_target_entities(Some(&cache), asset, &mut targets);
    assert_eq!(targets, vec![2, 5, 7, 9]);
    let mut untouched = vec![4u64];
    merge_target_entities(Some(&cache), key(99), &mut untouched);
    assert_eq!(untouched, vec![4]);
}

#[test]
fn despawned_entities_are_pruned_from_index_and_record() {
    let mut cache = ReflectHandleCache::new();
    let mut archetypes: HashMap<u64, u64> = HashMap::new();
    assert!(note_archetype(&mut archetypes, 1, 10));
    assert!(note_archetype(&mut archetypes, 2, 10));
    assert!(!note_archetype(&mut archetypes, 1, 10));
    assert!(note_archetype(&mut archetypes, 2, 11));
    cache.refresh_entity(1, None, &vec![(HANDLE_COMPONENT, vec![key(5)])]);
    cache.refresh_entity(2, None, &vec![(HANDLE_COMPONENT, vec![key(5)])]);
    let live: HashSet<u64> = [1u64].into_iter().collect();
    assert_eq!(prune_despawned(&mut cache, &mut archetypes, &live), 1);
    assert_eq!(archetypes.len(), 1);
    assert!(archetypes.contains_key(&1));
    assert!(cache.assets_for(2).is_none());
    assert_eq!(entities(&cache, key(5)), [1u64].into_iter().collect());
    assert_eq!(prune_despawned(&mut cache, &mut archetypes, &live), 0);
}

#[test]
fn full_validation_and_rewalk_decisions() {
    assert!(validation_due(false, None, 30));
    assert!(validation_due(true, Some(1), 30));
    assert!(!validation_due(false, Some(29), 30));
    assert!(validation_due(false, Some(30), 30));
    assert!(!walk_needed(false, false, false));
    assert!(walk_needed(false, true, false));
    assert!(walk_needed(false, false, true));
    assert!(walk_needed(true, false, false));
}

#[test]
fn scan_counters_account_walks_and_saturate() {
    let mut metrics = ReflectHandleTrackingMetrics::new();
    metrics.note_scan(true);
    metrics.note_scan(false);
    assert_eq!(metrics.frames_scanned, 2);
    assert_eq!(metrics.full_validations, 1);
    let extraction = extract_reflected_handles(&node(vec![h(1), h(2)]), 8);
    metrics.note_walk(&extraction);
    assert_eq!(metrics.components_reflected, 1);
    assert_eq!(metrics.handles_found, 2);
    assert_eq!(metrics.reflected_values_visited, extraction.visited_values);
    metrics.frames_scanned = u64::MAX;
    metrics.note_scan(false);
    assert_eq!(metrics.frames_scanned, u64::MAX);
}

#[test]
fn missing_reflection_types_are_counted_once() {
    let mut metrics = ReflectHandleTrackingMetrics::new();
    let mut handle_types: HashSet<u64> = HashSet::new();
    assert!(metrics.note_missing_handle_type(&mut handle_types, 7));
    assert!(!metrics.note_missing_handle_type(&mut handle_types, 7));
    assert!(metrics.note_missing_handle_type(&mut handle_types, 8));
    assert_eq!(metrics.missing_handle_types, 2);
    let mut component_types: HashSet<&'static str> = HashSet::new();
    assert!(metrics.note_missing_component_type(&mut component_types, "Transform"));
    assert!(!metrics.note_missing_component_type(&mut component_types, "Transform"));
    assert_eq!(metrics.missing_component_types, 1);
}
