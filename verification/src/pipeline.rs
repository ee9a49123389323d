//! The per-asset steps of the hot-reload pipeline: what a due refresh, a
//! due removal, a load failure and a dependency cascade do to the stored
//! state, and the notice each one dispatches.
//!
//! The asset store itself lives with the caller, which looks the asset up
//! and hands its config and source path in.

use crate::binding::{bound_entities, HandleEntityCache};
use crate::clock::{duration_nanos, elapsed_since, instant_now};
use crate::dependency::{parents_along, requests_for, CascadeQueue, DependencyGraph};
use crate::diff::ConfigDiff;
use crate::event::UntypedKey;
use crate::metrics::{
    sat_add, cascade_counted, clone_counted, diff_counted, failure_counted, refresh_counted,
    removal_counted, HmrMetrics,
};
use crate::refresh::{
    diff_kind_of, ConfigDelta, ConfigRefresh, ConfigReloadFailed, ConfigRemoved, DiffKind,
    RefreshCause,
};
use crate::sets::{clones_exact, set_to_vec};
use crate::source::{HmrSource, LastSnapshot};
use crate::view::{AssetRevision, AssetRevisionEntry, AssetRevisionStatus};
use std::collections::HashSet;
use std::marker::PhantomData;
use vstd::prelude::*;
use vstd::std_specs::hash::obeys_key_model;

verus! {

/// The revision number handed out after `n`.
pub open spec fn next_revision(n: u64) -> u64 {
    if n < u64::MAX {
        (n + 1) as u64
    } else {
        u64::MAX
    }
}

/// Whether the last recorded state of `id` is a load failure.
pub open spec fn failed_before<A>(revisions: &AssetRevision<A>, id: u128) -> bool {
    revisions@.contains_key(id) && revisions@[id].status is LoadFailed
}

/// The view of an optional recorded path, empty when absent.
pub open spec fn path_or_empty(paths: Map<u128, Seq<char>>, id: u128) -> Seq<char> {
    if paths.contains_key(id) {
        paths[id]
    } else {
        Seq::empty()
    }
}

/// The entities bound to `id`, each once.
fn targets_for<A>(cache: &HandleEntityCache<A>, id: u128) -> (targets: Vec<u64>)
    requires
        cache.wf(),
    ensures
        targets@.to_set() == bound_entities(cache@, id),
        targets@.no_duplicates(),
{
    match cache.get_entities(&id) {
        Some(set) => set_to_vec(set),
        None => {
            let v: Vec<u64> = Vec::new();
            assert(v@.to_set() =~= Set::<u64>::empty());
            v
        },
    }
}

/// Store a copy of `config` and its source path as the snapshot of `id`.
fn store_snapshot<A: HmrSource>(
    snapshots: &mut LastSnapshot<A>,
    metrics: &mut HmrMetrics<A>,
    id: u128,
    config: &A::Config,
    path: &str,
    clone_estimate: Option<usize>,
)
    ensures
        final(snapshots).map@.contains_key(id),
        cloned(*config, final(snapshots).map@[id]),
        final(snapshots).map@.remove(id) == old(snapshots).map@.remove(id),
        final(snapshots).paths() == old(snapshots).paths().insert(id, path@),
        final(metrics).counters() == clone_counted(old(metrics).counters(), clone_estimate),
{
    let copy = config.clone();
    metrics.record_config_clone(clone_estimate);
    snapshots.map.insert(id, copy);
    snapshots.source_paths.insert(id, path.to_string());
    assert(snapshots.map@.remove(id) =~= old(snapshots).map@.remove(id));
    assert(snapshots.paths() =~= old(snapshots).paths().insert(id, path@));
}

/// What a due removal of `id` does: its snapshot and path are forgotten;
/// when a snapshot existed, a removal notice naming the bound entities and
/// the recorded path is returned, a `Removed` revision is recorded, the
/// removal is counted and the parents' cascade is queued; otherwise nothing
/// else changes.
pub open spec fn removal_outcome<A: HmrSource>(
    old_snapshots: LastSnapshot<A>,
    new_snapshots: LastSnapshot<A>,
    old_revisions: AssetRevision<A>,
    new_revisions: AssetRevision<A>,
    old_counters: Seq<int>,
    new_counters: Seq<int>,
    cache: HandleEntityCache<A>,
    graph: DependencyGraph,
    old_pending: Seq<crate::dependency::CascadeRequest>,
    new_pending: Seq<crate::dependency::CascadeRequest>,
    asset_type: u64,
    id: u128,
    removed: Option<ConfigRemoved<A::Config>>,
) -> bool {
    &&& new_snapshots.map@ == old_snapshots.map@.remove(id)
    &&& new_snapshots.paths() == old_snapshots.paths().remove(id)
    &&& if old_snapshots.map@.contains_key(id) {
        let child = UntypedKey { type_tag: asset_type, key: id };
        &&& removed matches Some(r) && r.asset_id == id && r.target_entities@.to_set()
            == bound_entities(cache@, id) && r.target_entities@.no_duplicates()
            && r.source_path@ == path_or_empty(old_snapshots.paths(), id)
        &&& new_revisions.next_revision == next_revision(old_revisions.next_revision)
        &&& new_revisions@ == old_revisions@.insert(
            id,
            AssetRevisionEntry {
                revision: new_revisions.next_revision,
                status: AssetRevisionStatus::Removed,
            },
        )
        &&& new_counters == removal_counted(old_counters)
        &&& new_pending == old_pending + requests_for(parents_along(graph.edges@, child), child)
    } else {
        &&& removed is None
        &&& new_revisions == old_revisions
        &&& new_counters == old_counters
        &&& new_pending == old_pending
    }
}

/// A due removal of `id`: forget its snapshot and path; when a snapshot
/// existed, record the removal, queue the parents' cascade and return the
/// removal notice. A removal of an asset that was never snapshotted
/// dispatches nothing.
pub fn finish_removal<A: HmrSource>(
    snapshots: &mut LastSnapshot<A>,
    revisions: &mut AssetRevision<A>,
    metrics: &mut HmrMetrics<A>,
    cache: &HandleEntityCache<A>,
    graph: &DependencyGraph,
    queue: &mut CascadeQueue,
    asset_type: u64,
    id: u128,
) -> (removed: Option<ConfigRemoved<A::Config>>)
    requires
        cache.wf(),
        old(revisions).wf(),
    ensures
        final(revisions).wf(),
        removal_outcome(
            *old(snapshots),
            *final(snapshots),
            *old(revisions),
            *final(revisions),
            old(metrics).counters(),
            final(metrics).counters(),
            *cache,
            *graph,
            old(queue).pending@,
            final(queue).pending@,
            asset_type,
            id,
            removed,
        ),
{
    let had_snapshot = snapshots.map.remove(&id).is_some();
    let source_path = match snapshots.source_paths.remove(&id) {
        Some(path) => path,
        None => String::new(),
    };
    assert(snapshots.paths() =~= old(snapshots).paths().remove(id));
    if !had_snapshot {
        return None;
    }
    let target_entities = targets_for(cache, id);
    revisions.record_removed(id);
    metrics.count_removal();
    queue.enqueue_parents(graph, UntypedKey { type_tag: asset_type, key: id });
    Some(ConfigRemoved { asset_id: id, target_entities, source_path, marker: PhantomData })
}

/// The snapshot store after the new config `config` of `id`, read from
/// `path`, became its snapshot: `id` maps to a copy of `config` and to
/// `path`, and every other asset keeps its entries.
pub open spec fn snapshot_moved<A: HmrSource>(
    old_snapshots: LastSnapshot<A>,
    new_snapshots: LastSnapshot<A>,
    id: u128,
    config: A::Config,
    path: Seq<char>,
) -> bool {
    &&& new_snapshots.map@.contains_key(id)
    &&& cloned(config, new_snapshots.map@[id])
    &&& new_snapshots.map@.remove(id) == old_snapshots.map@.remove(id)
    &&& new_snapshots.paths() == old_snapshots.paths().insert(id, path)
}

/// What the refresh decision for `id` does once the delta between its
/// snapshot and its new config `config` is known, over everything but the
/// snapshot store: with an empty delta and no recorded failure nothing is
/// dispatched and nothing but the clone counters changes; otherwise a refresh
/// carrying that delta is returned, an `Available` revision is recorded, the
/// refresh and clone counters move and the parents' cascade is queued.
pub open spec fn delta_outcome<A: HmrSource>(
    old_revisions: AssetRevision<A>,
    new_revisions: AssetRevision<A>,
    old_counters: Seq<int>,
    new_counters: Seq<int>,
    cache: HandleEntityCache<A>,
    graph: DependencyGraph,
    old_pending: Seq<crate::dependency::CascadeRequest>,
    new_pending: Seq<crate::dependency::CascadeRequest>,
    asset_type: u64,
    id: u128,
    config: A::Config,
    path: Seq<char>,
    clone_estimate: Option<usize>,
    delta: ConfigDelta<<A::Config as ConfigDiff>::Id>,
    refresh: Option<ConfigRefresh<A::Config>>,
) -> bool {
    let child = UntypedKey { type_tag: asset_type, key: id };
    let recovery = failed_before(&old_revisions, id);
    if delta.all_ids() == Set::<<A::Config as ConfigDiff>::Id>::empty() && !recovery {
        &&& refresh is None
        &&& new_revisions == old_revisions
        &&& new_counters == clone_counted(old_counters, clone_estimate)
        &&& new_pending == old_pending
    } else {
        &&& refresh matches Some(r) && r.asset_id == id && cloned(config, r.new_config)
            && r.target_entities@.to_set() == bound_entities(cache@, id)
            && r.target_entities@.no_duplicates() && r.delta == delta && (obeys_key_model::<
            <A::Config as ConfigDiff>::Id,
        >() && clones_exact::<<A::Config as ConfigDiff>::Id>() ==> r.changed_ids@
            == delta.all_ids()) && r.diff_kind == diff_kind_of(
            delta.added.len() as nat,
            delta.removed.len() as nat,
            delta.modified.len() as nat,
        ) && r.cause == (if recovery {
            RefreshCause::Recovery
        } else {
            RefreshCause::Direct
        }) && r.source_path@ == path
        &&& new_revisions.next_revision == next_revision(old_revisions.next_revision)
        &&& new_revisions@ == old_revisions@.insert(
            id,
            AssetRevisionEntry {
                revision: new_revisions.next_revision,
                status: AssetRevisionStatus::Available,
            },
        )
        &&& new_counters == refresh_counted(
            clone_counted(clone_counted(old_counters, clone_estimate), clone_estimate),
            recovery,
        )
        &&& new_pending == old_pending + requests_for(parents_along(graph.edges@, child), child)
    }
}

/// The refresh decision once the delta between the snapshot and the new
/// config `config` of `id` is known. The snapshot always moves to the new
/// config. A refresh is dispatched when the delta is not empty, or when the
/// asset recovers from a load failure (even with an empty delta); it records
/// an `Available` revision and queues the parents' cascade.
pub fn apply_delta<A: HmrSource>(
    snapshots: &mut LastSnapshot<A>,
    revisions: &mut AssetRevision<A>,
    metrics: &mut HmrMetrics<A>,
    cache: &HandleEntityCache<A>,
    graph: &DependencyGraph,
    queue: &mut CascadeQueue,
    asset_type: u64,
    id: u128,
    config: &A::Config,
    path: &str,
    clone_estimate: Option<usize>,
    delta: ConfigDelta<<A::Config as ConfigDiff>::Id>,
) -> (refresh: Option<ConfigRefresh<A::Config>>)
    requires
        cache.wf(),
        old(revisions).wf(),
    ensures
        final(revisions).wf(),
        snapshot_moved(*old(snapshots), *final(snapshots), id, *config, path@),
        delta_outcome(
            *old(revisions),
            *final(revisions),
            old(metrics).counters(),
            final(metrics).counters(),
            *cache,
            *graph,
            old(queue).pending@,
            final(queue).pending@,
            asset_type,
            id,
            *config,
            path@,
            clone_estimate,
            delta,
            refresh,
        ),
{
    store_snapshot(snapshots, metrics, id, config, path, clone_estimate);
    let recovery = match revisions.status(id) {
        Some(AssetRevisionStatus::LoadFailed { .. }) => true,
        _ => false,
    };
    if delta.is_empty() && !recovery {
        return None;
    }
    revisions.record_available(id);
    let target_entities = targets_for(cache, id);
    let changed_ids = delta.changed_ids();
    let diff_kind = DiffKind::from_counts(delta.added.len(), delta.removed.len(), delta.modified.len());
    let new_config = config.clone();
    metrics.record_config_clone(clone_estimate);
    metrics.count_refresh(recovery);
    queue.enqueue_parents(graph, UntypedKey { type_tag: asset_type, key: id });
    let cause = if recovery {
        RefreshCause::Recovery
    } else {
        RefreshCause::Direct
    };
    Some(
        ConfigRefresh {
            asset_id: id,
            new_config,
            target_entities,
            changed_ids,
            delta,
            diff_kind,
            cause,
            source_path: path.to_string(),
        },
    )
}

/// A due refresh of `id`, whose asset currently holds `current` (its config
/// and source path), or is absent. An absent asset changes nothing (failures
/// are reported separately). The first time an asset is seen its snapshot
/// is recorded and nothing is dispatched. Otherwise the config is diffed
/// against the snapshot (and the diff timed), and [`apply_delta`] decides.
pub fn finish_refresh<A: HmrSource>(
    snapshots: &mut LastSnapshot<A>,
    revisions: &mut AssetRevision<A>,
    metrics: &mut HmrMetrics<A>,
    cache: &HandleEntityCache<A>,
    graph: &DependencyGraph,
    queue: &mut CascadeQueue,
    asset_type: u64,
    id: u128,
    current: Option<(&A::Config, &str)>,
    clone_estimate: Option<usize>,
) -> (refresh: Option<ConfigRefresh<A::Config>>)
    requires
        cache.wf(),
        old(revisions).wf(),
    ensures
        final(revisions).wf(),
        match current {
            None => {
                &&& refresh is None
                &&& final(snapshots).map@ == old(snapshots).map@
                &&& final(snapshots).paths() == old(snapshots).paths()
                &&& *final(revisions) == *old(revisions)
                &&& final(metrics).counters() == old(metrics).counters()
                &&& final(queue).pending@ == old(queue).pending@
            },
            Some((config, path)) => {
                &&& snapshot_moved(*old(snapshots), *final(snapshots), id, *config, path@)
                &&& !old(snapshots).map@.contains_key(id) ==> {
                    &&& refresh is None
                    &&& final(revisions).next_revision == next_revision(
                        old(revisions).next_revision,
                    )
                    &&& final(revisions)@ == old(revisions)@.insert(
                        id,
                        AssetRevisionEntry {
                            revision: final(revisions).next_revision,
                            status: AssetRevisionStatus::Available,
                        },
                    )
                    &&& final(metrics).counters() == clone_counted(
                        old(metrics).counters(),
                        clone_estimate,
                    )
                    &&& final(queue).pending@ == old(queue).pending@
                }
                &&& old(snapshots).map@.contains_key(id) ==> exists|
                    delta: ConfigDelta<<A::Config as ConfigDiff>::Id>,
                    nanos: int,
                |
                    #![trigger diff_counted(old(metrics).counters(), nanos), delta.all_ids()]
                    0 <= nanos <= u128::MAX && call_ensures(
                        <A::Config as ConfigDiff>::diff,
                        (&old(snapshots).map@[id], config),
                        (delta.added, delta.removed, delta.modified),
                    ) && delta_outcome(
                        *old(revisions),
                        *final(revisions),
                        diff_counted(old(metrics).counters(), nanos),
                        final(metrics).counters(),
                        *cache,
                        *graph,
                        old(queue).pending@,
                        final(queue).pending@,
                        asset_type,
                        id,
                        *config,
                        path@,
                        clone_estimate,
                        delta,
                        refresh,
                    )
            },
        },
{
    match current {
        None => None,
        Some((config, path)) => {
            match snapshots.map.get(&id) {
                None => {
                    store_snapshot(snapshots, metrics, id, config, path, clone_estimate);
                    revisions.record_available(id);
                    None
                },
                Some(previous) => {
                    let started = instant_now();
                    let (added, removed, modified) = <A::Config as ConfigDiff>::diff(previous, config);
                    let nanos = duration_nanos(&elapsed_since(&started));
                    let delta = ConfigDelta { added, removed, modified };
                    metrics.record_diff(nanos);
                    let refresh = apply_delta(
                        snapshots,
                        revisions,
                        metrics,
                        cache,
                        graph,
                        queue,
                        asset_type,
                        id,
                        config,
                        path,
                        clone_estimate,
                        delta,
                    );
                    refresh
                },
            }
        },
    }
}

/// A load failure of `id` read from `failure_path` with `error`: report the
/// last valid config (when a snapshot exists), the recorded source path
/// (falling back to the path of the failed load), and the bound entities;
/// record the failure and queue the parents' cascade.
pub fn report_load_failure<A: HmrSource>(
    snapshots: &LastSnapshot<A>,
    revisions: &mut AssetRevision<A>,
    metrics: &mut HmrMetrics<A>,
    cache: &HandleEntityCache<A>,
    graph: &DependencyGraph,
    queue: &mut CascadeQueue,
    asset_type: u64,
    id: u128,
    failure_path: String,
    error: String,
    clone_estimate: Option<usize>,
) -> (failed: ConfigReloadFailed<A::Config>)
    requires
        cache.wf(),
        old(revisions).wf(),
    ensures
        final(revisions).wf(),
        failed.asset_id == id,
        failed.error@ == error@,
        failed.source_path@ == (if snapshots.paths().contains_key(id) {
            snapshots.paths()[id]
        } else {
            failure_path@
        }),
        failed.target_entities@.to_set() == bound_entities(cache@, id),
        failed.target_entities@.no_duplicates(),
        match failed.current_config {
            Some(c) => snapshots.map@.contains_key(id) && cloned(snapshots.map@[id], c),
            None => !snapshots.map@.contains_key(id),
        },
        final(revisions).next_revision == next_revision(old(revisions).next_revision),
        final(revisions)@ == old(revisions)@.insert(
            id,
            AssetRevisionEntry {
                revision: final(revisions).next_revision,
                status: AssetRevisionStatus::LoadFailed {
                    source_path: failed.source_path,
                    error: failed.error,
                },
            },
        ),
        final(metrics).counters() == failure_counted(
            if snapshots.map@.contains_key(id) {
                clone_counted(old(metrics).counters(), clone_estimate)
            } else {
                old(metrics).counters()
            },
        ),
        final(queue).pending@ == old(queue).pending@ + requests_for(
            parents_along(graph.edges@, UntypedKey { type_tag: asset_type, key: id }),
            UntypedKey { type_tag: asset_type, key: id },
        ),
{
    let current_config = match snapshots.map.get(&id) {
        Some(config) => {
            let copy = config.clone();
            metrics.record_config_clone(clone_estimate);
            Some(copy)
        },
        None => None,
    };
    let source_path = match snapshots.source_paths.get(&id) {
        Some(path) => path.clone(),
        None => failure_path,
    };
    let target_entities = targets_for(cache, id);
    revisions.record_failed(id, source_path.clone(), error.clone());
    metrics.count_failure();
    queue.enqueue_parents(graph, UntypedKey { type_tag: asset_type, key: id });
    ConfigReloadFailed { asset_id: id, source_path, error, target_entities, current_config }
}

/// The refresh a dependency cascade sends to parent `parent` (whose asset
/// holds `config` and source path `path`): an empty delta, the `Modified`
/// kind, and the dependency cause naming every triggering child.
pub fn cascade_refresh<A: HmrSource>(
    metrics: &mut HmrMetrics<A>,
    cache: &HandleEntityCache<A>,
    parent: u128,
    triggered_by: Vec<UntypedKey>,
    config: &A::Config,
    path: &str,
    clone_estimate: Option<usize>,
) -> (refresh: ConfigRefresh<A::Config>)
    requires
        cache.wf(),
    ensures
        refresh.asset_id == parent,
        cloned(*config, refresh.new_config),
        refresh.target_entities@.to_set() == bound_entities(cache@, parent),
        refresh.target_entities@.no_duplicates(),
        refresh.changed_ids@ == Set::<<A::Config as ConfigDiff>::Id>::empty(),
        refresh.delta.all_ids() == Set::<<A::Config as ConfigDiff>::Id>::empty(),
        refresh.diff_kind == DiffKind::Modified,
        refresh.cause == (RefreshCause::Dependency { triggered_by }),
        refresh.source_path@ == path@,
        final(metrics).counters() == cascade_counted(
            clone_counted(old(metrics).counters(), clone_estimate),
        ),
{
    let new_config = config.clone();
    metrics.record_config_clone(clone_estimate);
    metrics.count_cascade();
    let target_entities = targets_for(cache, parent);
    let delta: ConfigDelta<<A::Config as ConfigDiff>::Id> = ConfigDelta::default();
    proof {
        assert(delta.all_ids() =~= Set::<<A::Config as ConfigDiff>::Id>::empty());
    }
    ConfigRefresh {
        asset_id: parent,
        new_config,
        target_entities,
        changed_ids: HashSet::new(),
        delta,
        diff_kind: DiffKind::Modified,
        cause: RefreshCause::Dependency { triggered_by },
        source_path: path.to_string(),
    }
}

} // verus!
