//! Properties that span several operations of the library, stated over the
//! same views and spec functions the operations' contracts use.

use crate::binding::{bindings_of, bound_entities, HandleEntityCache};
use crate::debounce::{due_keys, is_due, queues_after_all, queues_after};
use crate::event::AssetEvent;
use crate::pipeline::{delta_outcome, removal_outcome, snapshot_moved};
use crate::source::LastSnapshot;
use crate::refresh::ConfigDelta;
use crate::source::HmrSource;
use crate::dependency::CascadeRequest;
use crate::dependency::{
    add_to_group, edges_to, first_occurrences, group_keys, grouped, key_index, of_type, parents_along, without_asset, without_parent,
    CascadeQueue, DependencyEdge, DependencyGraph,
};
use crate::event::UntypedKey;
use crate::registry::push_unique;
use crate::watcher::{first_bound_path, opt_string_view, BoundHandle};
use crate::tracking::{
    apply_updates, assets_of_components, components_of, kept_components, update_sets,
    with_entity, ReflectHandleCache,
};
use crate::pipeline::failed_before;
use crate::refresh::{ConfigRefresh, ConfigRemoved, RefreshCause};
use crate::diff::ConfigDiff;
use crate::view::{AppliedRevision, AssetRevision, AssetRevisionEntry, AssetRevisionStatus};
use crate::sets::clones_exact;
use vstd::prelude::*;
use vstd::std_specs::cmp::PartialEqSpec;
use vstd::std_specs::hash::obeys_key_model;

verus! {

/// Binding an entity that had no binding, then removing that entity, leaves
/// the cache's bindings as they were.
pub proof fn law_remove_undoes_fresh_insert<A>(
    before: HandleEntityCache<A>,
    inserted: HandleEntityCache<A>,
    removed: HandleEntityCache<A>,
    entity: u64,
    handle: u128,
)
    requires
        before.wf(),
        !before@.contains_key(entity),
        inserted@ == before@.insert(entity, handle),
        removed@ == inserted@.remove(entity),
    ensures
        removed@ == before@,
{
    assert(removed@ =~= before@);
}

/// Binding the same entity to the same handle again changes nothing: no
/// handle gains or loses an entity, so reusing an asset id never grows the
/// cache.
pub proof fn law_repeated_insert_does_not_grow<A>(
    once: HandleEntityCache<A>,
    twice: HandleEntityCache<A>,
    entity: u64,
    handle: u128,
)
    requires
        once.wf(),
        once@.contains_key(entity) && once@[entity] == handle,
        twice@ == once@.insert(entity, handle),
    ensures
        twice@ == once@,
        forall|h: u128| bound_entities(twice@, h) == bound_entities(once@, h),
{
    assert(twice@ =~= once@);
}

/// Rebinding an entity to another handle takes it out of the entity set of
/// its previous handle and puts it into the set of the new one.
pub proof fn law_rebinding_moves_entity<A>(
    before: HandleEntityCache<A>,
    after: HandleEntityCache<A>,
    entity: u64,
    new_handle: u128,
)
    requires
        before.wf(),
        before@.contains_key(entity),
        before@[entity] != new_handle,
        after@ == before@.insert(entity, new_handle),
    ensures
        bound_entities(after@, before@[entity]) == bound_entities(before@, before@[entity]).remove(
            entity,
        ),
        bound_entities(after@, new_handle) == bound_entities(before@, new_handle).insert(entity),
{
    assert(bound_entities(after@, before@[entity]) =~= bound_entities(
        before@,
        before@[entity],
    ).remove(entity));
    assert(bound_entities(after@, new_handle) =~= bound_entities(before@, new_handle).insert(
        entity,
    ));
}

/// Drift correction settles: once a cache has been validated against the
/// live bindings, validating it again against the same bindings replaces
/// nothing.
pub proof fn law_validation_settles<A>(
    validated: HandleEntityCache<A>,
    pairs: Seq<(u64, u128)>,
    replaced_again: bool,
)
    requires
        validated.wf(),
        validated@ == bindings_of(pairs),
        replaced_again == (validated@ != bindings_of(pairs)),
    ensures
        !replaced_again,
{
}

/// Whether `event` queues or drops work for asset `id`.
pub open spec fn touches(event: AssetEvent, id: u128) -> bool {
    match event {
        AssetEvent::Added { id: k } | AssetEvent::Modified { id: k } | AssetEvent::Removed {
            id: k,
        } => k == id,
        _ => false,
    }
}

/// The last event of `events` that touches `id`, with the time it was seen.
pub open spec fn last_touch(events: Seq<(AssetEvent, u128)>, id: u128) -> Option<
    (AssetEvent, u128),
>
    decreases events.len(),
{
    if events.len() == 0 {
        None
    } else if touches(events.last().0, id) {
        Some(events.last())
    } else {
        last_touch(events.drop_last(), id)
    }
}

/// The last event for an asset wins: after any sequence of events, an asset
/// whose last event was a removal is pending removal only, one whose last
/// event was an addition or modification is pending refresh only, each
/// timed at that event; an asset no event touched keeps its entries. So a
/// removal followed by an addition refreshes the final asset, a modification
/// followed by a removal only removes it, and a save made after an earlier
/// refresh is queued again rather than dropped.
pub proof fn law_last_event_decides(
    start: (Map<u128, u128>, Map<u128, u128>),
    events: Seq<(AssetEvent, u128)>,
    id: u128,
)
    ensures
        ({
            let end = queues_after_all(start, events);
            match last_touch(events, id) {
                Some((AssetEvent::Removed { .. }, t)) => !end.0.contains_key(id)
                    && end.1.contains_key(id) && end.1[id] == t,
                Some((_, t)) => end.0.contains_key(id) && end.0[id] == t && !end.1.contains_key(
                    id,
                ),
                None => end.0.contains_key(id) == start.0.contains_key(id) && end.1.contains_key(
                    id,
                ) == start.1.contains_key(id) && (start.0.contains_key(id) ==> end.0[id]
                    == start.0[id]) && (start.1.contains_key(id) ==> end.1[id] == start.1[id]),
            }
        }),
    decreases events.len(),
{
    if events.len() > 0 {
        law_last_event_decides(start, events.drop_last(), id);
    }
}

/// The debouncer keeps no asset pending both a refresh and a removal, after
/// any sequence of events.
pub proof fn law_queues_stay_disjoint(
    start: (Map<u128, u128>, Map<u128, u128>),
    events: Seq<(AssetEvent, u128)>,
)
    requires
        forall|k: u128| #[trigger] start.0.contains_key(k) ==> !start.1.contains_key(k),
    ensures
        forall|k: u128| #[trigger]
            queues_after_all(start, events).0.contains_key(k) ==> !queues_after_all(
                start,
                events,
            ).1.contains_key(k),
{
    assert forall|k: u128| #[trigger]
        queues_after_all(start, events).0.contains_key(k) implies !queues_after_all(
        start,
        events,
    ).1.contains_key(k) by {
        law_last_event_decides(start, events, k);
    }
}

/// Saving an asset again before its refresh is due keeps a single pending
/// refresh for it, timed at the latest save, so one refresh reaches the
/// final state.
pub proof fn law_resave_keeps_one_pending_refresh(
    start: (Map<u128, u128>, Map<u128, u128>),
    id: u128,
    t1: u128,
    t2: u128,
)
    ensures
        ({
            let end = queues_after_all(
                start,
                seq![(AssetEvent::Modified { id }, t1), (AssetEvent::Modified { id }, t2)],
            );
            end.0 == start.0.insert(id, t2) && end.1 == start.1.remove(id)
        }),
{
    let events = seq![(AssetEvent::Modified { id }, t1), (AssetEvent::Modified { id }, t2)];
    let first = events.drop_last();
    assert(first.drop_last() =~= Seq::<(AssetEvent, u128)>::empty());
    assert(first.last() == (AssetEvent::Modified { id }, t1));
    let mid = queues_after_all(start, first);
    assert(mid == queues_after(queues_after_all(start, first.drop_last()), first.last().0, first.last().1));
    assert(mid == queues_after(start, AssetEvent::Modified { id }, t1));
    let end = queues_after_all(start, events);
    assert(end == queues_after(mid, AssetEvent::Modified { id }, t2));
    assert(end.0 =~= start.0.insert(id, t2));
    assert(end.1 =~= start.1.remove(id));
}

/// A due refresh whose config differs from the snapshot (its diff names at
/// least one id) is always dispatched: the refresh carries a copy of the new
/// config and exactly that delta, and the asset is recorded as available.
pub proof fn law_changed_config_is_dispatched<A: HmrSource>(
    old_revisions: AssetRevision<A>,
    new_revisions: AssetRevision<A>,
    old_counters: Seq<int>,
    new_counters: Seq<int>,
    cache: HandleEntityCache<A>,
    graph: DependencyGraph,
    old_pending: Seq<CascadeRequest>,
    new_pending: Seq<CascadeRequest>,
    asset_type: u64,
    id: u128,
    config: A::Config,
    path: Seq<char>,
    clone_estimate: Option<usize>,
    delta: ConfigDelta<<A::Config as ConfigDiff>::Id>,
    refresh: Option<ConfigRefresh<A::Config>>,
)
    requires
        delta.all_ids() != Set::<<A::Config as ConfigDiff>::Id>::empty(),
        delta_outcome(
            old_revisions,
            new_revisions,
            old_counters,
            new_counters,
            cache,
            graph,
            old_pending,
            new_pending,
            asset_type,
            id,
            config,
            path,
            clone_estimate,
            delta,
            refresh,
        ),
    ensures
        refresh matches Some(r) && r.asset_id == id && cloned(config, r.new_config) && r.delta
            == delta,
        new_revisions@.contains_key(id) && new_revisions@[id].status
            == AssetRevisionStatus::Available,
{
}

/// Over one flush, an asset whose last event before the flush added or
/// modified it (a removal followed by an addition, or a save made after an
/// earlier refresh) is released as a due refresh and never as a removal;
/// when the config's diff against the snapshot names a change, the refresh
/// is dispatched with a copy of the final config, which also becomes the
/// snapshot.
pub proof fn law_flush_refreshes_final_asset<A: HmrSource>(
    start: (Map<u128, u128>, Map<u128, u128>),
    events: Seq<(AssetEvent, u128)>,
    now: u128,
    window: u128,
    old_snapshots: LastSnapshot<A>,
    new_snapshots: LastSnapshot<A>,
    old_revisions: AssetRevision<A>,
    new_revisions: AssetRevision<A>,
    old_counters: Seq<int>,
    new_counters: Seq<int>,
    cache: HandleEntityCache<A>,
    graph: DependencyGraph,
    old_pending: Seq<CascadeRequest>,
    new_pending: Seq<CascadeRequest>,
    asset_type: u64,
    id: u128,
    config: A::Config,
    path: Seq<char>,
    clone_estimate: Option<usize>,
    delta: ConfigDelta<<A::Config as ConfigDiff>::Id>,
    refresh: Option<ConfigRefresh<A::Config>>,
)
    requires
        last_touch(events, id) matches Some((event, t)) && !(event is Removed) && is_due(
            t,
            now,
            window,
        ),
        old_snapshots.map@.contains_key(id),
        call_ensures(
            <A::Config as ConfigDiff>::diff,
            (&old_snapshots.map@[id], &config),
            (delta.added, delta.removed, delta.modified),
        ),
        delta.all_ids() != Set::<<A::Config as ConfigDiff>::Id>::empty(),
        snapshot_moved(old_snapshots, new_snapshots, id, config, path),
        delta_outcome(
            old_revisions,
            new_revisions,
            old_counters,
            new_counters,
            cache,
            graph,
            old_pending,
            new_pending,
            asset_type,
            id,
            config,
            path,
            clone_estimate,
            delta,
            refresh,
        ),
    ensures
        due_keys(queues_after_all(start, events).0, now, window).contains(id),
        !queues_after_all(start, events).1.contains_key(id),
        refresh matches Some(r) && r.asset_id == id && cloned(config, r.new_config) && r.delta
            == delta,
        cloned(config, new_snapshots.map@[id]),
{
    law_last_event_decides(start, events, id);
}

/// Over one flush, an asset whose last event before the flush removed it
/// (a modification followed by a removal) is released as a due removal and
/// never as a refresh; the removal is dispatched and its snapshot is gone.
pub proof fn law_flush_removes_when_removal_last<A: HmrSource>(
    start: (Map<u128, u128>, Map<u128, u128>),
    events: Seq<(AssetEvent, u128)>,
    now: u128,
    window: u128,
    old_snapshots: LastSnapshot<A>,
    new_snapshots: LastSnapshot<A>,
    old_revisions: AssetRevision<A>,
    new_revisions: AssetRevision<A>,
    old_counters: Seq<int>,
    new_counters: Seq<int>,
    cache: HandleEntityCache<A>,
    graph: DependencyGraph,
    old_pending: Seq<CascadeRequest>,
    new_pending: Seq<CascadeRequest>,
    asset_type: u64,
    id: u128,
    removed: Option<ConfigRemoved<A::Config>>,
)
    requires
        last_touch(events, id) matches Some((event, t)) && event is Removed && is_due(
            t,
            now,
            window,
        ),
        old_snapshots.map@.contains_key(id),
        removal_outcome(
            old_snapshots,
            new_snapshots,
            old_revisions,
            new_revisions,
            old_counters,
            new_counters,
            cache,
            graph,
            old_pending,
            new_pending,
            asset_type,
            id,
            removed,
        ),
    ensures
        due_keys(queues_after_all(start, events).1, now, window).contains(id),
        !queues_after_all(start, events).0.contains_key(id),
        removed matches Some(r) && r.asset_id == id,
        !new_snapshots.map@.contains_key(id),
{
    law_last_event_decides(start, events, id);
}

/// A due refresh whose content did not change (an empty delta) dispatches
/// nothing unless the asset failed to load before, in which case it is
/// dispatched as a recovery.
pub proof fn law_unchanged_config_is_silent_unless_recovering<A: HmrSource>(
    old_revisions: AssetRevision<A>,
    new_revisions: AssetRevision<A>,
    old_counters: Seq<int>,
    new_counters: Seq<int>,
    cache: HandleEntityCache<A>,
    graph: DependencyGraph,
    old_pending: Seq<CascadeRequest>,
    new_pending: Seq<CascadeRequest>,
    asset_type: u64,
    id: u128,
    config: A::Config,
    path: Seq<char>,
    clone_estimate: Option<usize>,
    delta: ConfigDelta<<A::Config as ConfigDiff>::Id>,
    refresh: Option<ConfigRefresh<A::Config>>,
)
    requires
        delta.all_ids() == Set::<<A::Config as ConfigDiff>::Id>::empty(),
        delta_outcome(
            old_revisions,
            new_revisions,
            old_counters,
            new_counters,
            cache,
            graph,
            old_pending,
            new_pending,
            asset_type,
            id,
            config,
            path,
            clone_estimate,
            delta,
            refresh,
        ),
    ensures
        refresh is None <==> !failed_before(&old_revisions, id),
        refresh matches Some(r) ==> r.cause == RefreshCause::Recovery,
        refresh is None ==> new_revisions == old_revisions && new_pending == old_pending,
{
}

/// Revisions only grow: a newly recorded revision is greater than every
/// revision recorded before it, as long as the counter has not saturated.
pub proof fn law_recorded_revision_is_newest<A>(
    before: AssetRevision<A>,
    after: AssetRevision<A>,
    id: u128,
    status: AssetRevisionStatus,
    revision: u64,
)
    requires
        before.wf(),
        before.next_revision < u64::MAX,
        revision == before.next_revision + 1,
        after.next_revision == revision,
        after@ == before@.insert(id, AssetRevisionEntry { revision, status }),
    ensures
        forall|k: u128| #[trigger] before@.contains_key(k) ==> before@[k].revision < after@[id].revision,
        after.wf(),
{
}

/// Syncing a view is idempotent: after a sync check the view is no longer
/// stale, so an immediate second check emits nothing.
pub proof fn law_synced_view_is_current<A>(
    before: AppliedRevision<A>,
    after: AppliedRevision<A>,
    revisions: AssetRevision<A>,
)
    requires
        after.asset == before.asset,
        before.stale_in(&revisions) ==> after.revision == revisions@[before.asset].revision,
        !before.stale_in(&revisions) ==> after.revision == before.revision,
    ensures
        !after.stale_in(&revisions),
{
}

proof fn lemma_without_parent_idempotent(edges: Seq<DependencyEdge>, parent: UntypedKey)
    ensures
        without_parent(without_parent(edges, parent), parent) == without_parent(edges, parent),
    decreases edges.len(),
{
    if edges.len() > 0 {
        lemma_without_parent_idempotent(edges.drop_last(), parent);
        let rest = without_parent(edges.drop_last(), parent);
        if edges.last().parent != parent {
            assert(rest.push(edges.last()).drop_last() =~= rest);
        }
    }
}

proof fn lemma_without_parent_append(
    left: Seq<DependencyEdge>,
    right: Seq<DependencyEdge>,
    parent: UntypedKey,
)
    ensures
        without_parent(left + right, parent) == without_parent(left, parent) + without_parent(
            right,
            parent,
        ),
    decreases right.len(),
{
    if right.len() == 0 {
        assert(left + right =~= left);
        assert(without_parent(left, parent) + Seq::<DependencyEdge>::empty() =~= without_parent(
            left,
            parent,
        ));
    } else {
        lemma_without_parent_append(left, right.drop_last(), parent);
        assert((left + right).drop_last() =~= left + right.drop_last());
        assert((left + right).last() == right.last());
        let l = without_parent(left, parent);
        let r = without_parent(right.drop_last(), parent);
        if right.last().parent != parent {
            assert(l + r.push(right.last()) =~= (l + r).push(right.last()));
        }
    }
}

proof fn lemma_without_parent_of_own_edges(children: Seq<UntypedKey>, parent: UntypedKey)
    ensures
        without_parent(edges_to(children, parent), parent) == Seq::<DependencyEdge>::empty(),
    decreases children.len(),
{
    if children.len() > 0 {
        lemma_without_parent_of_own_edges(children.drop_last(), parent);
        assert(edges_to(children, parent).drop_last() =~= edges_to(children.drop_last(), parent));
    }
}

/// Re-recording the same dependencies of a parent changes nothing: the
/// second rebuild yields the edges of the first.
pub proof fn law_rebuild_is_idempotent(
    start: DependencyGraph,
    once: DependencyGraph,
    twice: DependencyGraph,
    parent: UntypedKey,
    children: Seq<UntypedKey>,
)
    requires
        start.wf(),
        once.edges@ == without_parent(start.edges@, parent) + edges_to(
            first_occurrences(children),
            parent,
        ),
        twice.edges@ == without_parent(once.edges@, parent) + edges_to(
            first_occurrences(children),
            parent,
        ),
    ensures
        twice.edges@ == once.edges@,
{
    let kept = without_parent(start.edges@, parent);
    let own = edges_to(first_occurrences(children), parent);
    lemma_without_parent_append(kept, own, parent);
    lemma_without_parent_idempotent(start.edges@, parent);
    lemma_without_parent_of_own_edges(first_occurrences(children), parent);
    assert(without_parent(once.edges@, parent) =~= kept);
}

proof fn lemma_without_asset_clears(edges: Seq<DependencyEdge>, id: UntypedKey)
    ensures
        parents_along(without_asset(edges, id), id) == Seq::<UntypedKey>::empty(),
        forall|i: int|
            0 <= i < without_asset(edges, id).len() ==> #[trigger] without_asset(edges, id)[i].parent
                != id,
    decreases edges.len(),
{
    if edges.len() > 0 {
        lemma_without_asset_clears(edges.drop_last(), id);
        let rest = without_asset(edges.drop_last(), id);
        if !(edges.last().parent == id || edges.last().child == id) {
            assert(rest.push(edges.last()).drop_last() =~= rest);
        }
    }
}

/// Once an asset is removed from the dependency graph it is nobody's child
/// and nobody's parent: a later change of it cascades nowhere.
pub proof fn law_removed_asset_leaves_graph(
    before: DependencyGraph,
    after: DependencyGraph,
    id: UntypedKey,
)
    requires
        before.wf(),
        after.edges@ == without_asset(before.edges@, id),
    ensures
        parents_along(after.edges@, id) == Seq::<UntypedKey>::empty(),
        forall|i: int| 0 <= i < after.edges@.len() ==> #[trigger] after.edges@[i].parent != id,
{
    lemma_without_asset_clears(before.edges@, id);
}

proof fn lemma_of_type_partition(reqs: Seq<crate::dependency::CascadeRequest>, type_tag: u64)
    ensures
        of_type(of_type(reqs, type_tag, false), type_tag, true) == Seq::<
            crate::dependency::CascadeRequest,
        >::empty(),
        of_type(of_type(reqs, type_tag, false), type_tag, false) == of_type(reqs, type_tag, false),
    decreases reqs.len(),
{
    if reqs.len() > 0 {
        lemma_of_type_partition(reqs.drop_last(), type_tag);
        let rest = of_type(reqs.drop_last(), type_tag, false);
        if reqs.last().parent.type_tag != type_tag {
            assert(rest.push(reqs.last()).drop_last() =~= rest);
        }
    }
}

/// Draining the cascade requests of one parent type leaves none of that
/// type behind: a second drain finds nothing and keeps the rest as it is.
pub proof fn law_drained_type_is_gone(
    before: CascadeQueue,
    after: CascadeQueue,
    type_tag: u64,
)
    requires
        after.pending@ == of_type(before.pending@, type_tag, false),
    ensures
        of_type(after.pending@, type_tag, true) == Seq::<crate::dependency::CascadeRequest>::empty(),
        of_type(after.pending@, type_tag, false) == after.pending@,
{
    lemma_of_type_partition(before.pending@, type_tag);
}

/// Registering the same asset path twice for a config type records it once.
pub proof fn law_register_is_idempotent(list: Seq<Seq<char>>, path: Seq<char>)
    ensures
        push_unique(push_unique(list, path), path) == push_unique(list, path),
{
    if !list.contains(path) {
        assert(list.push(path).contains(path)) by {
            assert(list.push(path)[list.len() as int] == path);
        }
    }
}

/// Once an entity is removed from the reflected-handle index, no asset
/// lists it among its referencing entities, and nothing else changes.
pub proof fn law_removed_entity_references_nothing(
    before: ReflectHandleCache,
    after: ReflectHandleCache,
    entity: u64,
    asset: UntypedKey,
)
    requires
        before.wf(),
        after.components() == before.components().remove(entity),
    ensures
        !after.entities_of(asset).contains(entity),
        after.entities_of(asset) == before.entities_of(asset).remove(entity),
{
    assert(after.entities_of(asset) =~= before.entities_of(asset).remove(entity));
}

/// Integer ids hash, compare and clone faithfully, so for them the keyed
/// diff, the changed-id union of a delta and the refresh's `changed_ids` are
/// exact, with no condition left.
pub proof fn law_integer_ids_are_exact()
    ensures
        obeys_key_model::<u32>() && clones_exact::<u32>() && <u32 as PartialEqSpec>::obeys_eq_spec(),
        obeys_key_model::<u64>() && clones_exact::<u64>() && <u64 as PartialEqSpec>::obeys_eq_spec(),
        obeys_key_model::<u128>() && clones_exact::<u128>()
            && <u128 as PartialEqSpec>::obeys_eq_spec(),
{
    broadcast use vstd::std_specs::hash::group_hash_axioms;

    assert forall|a: u32, b: u32| #[trigger] cloned(a, b) implies a == b by {}
    assert forall|a: u64, b: u64| #[trigger] cloned(a, b) implies a == b by {}
    assert forall|a: u128, b: u128| #[trigger] cloned(a, b) implies a == b by {}
}

/// A refresh of an asset whose last recorded state is a load failure is
/// always dispatched, as a recovery, whether or not its content changed; a
/// refresh of any other asset is a direct one.
pub proof fn law_refresh_after_failure_is_recovery<A: HmrSource>(
    old_revisions: AssetRevision<A>,
    new_revisions: AssetRevision<A>,
    old_counters: Seq<int>,
    new_counters: Seq<int>,
    cache: HandleEntityCache<A>,
    graph: DependencyGraph,
    old_pending: Seq<CascadeRequest>,
    new_pending: Seq<CascadeRequest>,
    asset_type: u64,
    id: u128,
    config: A::Config,
    path: Seq<char>,
    clone_estimate: Option<usize>,
    delta: ConfigDelta<<A::Config as ConfigDiff>::Id>,
    refresh: Option<ConfigRefresh<A::Config>>,
)
    requires
        delta_outcome(
            old_revisions,
            new_revisions,
            old_counters,
            new_counters,
            cache,
            graph,
            old_pending,
            new_pending,
            asset_type,
            id,
            config,
            path,
            clone_estimate,
            delta,
            refresh,
        ),
    ensures
        old_revisions@.contains_key(id) && old_revisions@[id].status is LoadFailed ==> (
        refresh matches Some(r) && r.cause == RefreshCause::Recovery),
        !(old_revisions@.contains_key(id) && old_revisions@[id].status is LoadFailed) ==> (
        refresh matches Some(r) ==> r.cause == RefreshCause::Direct),
{
}

/// A removal notice lists every entity bound to the removed asset, each
/// once, and no other entity; it is sent exactly when the asset had a
/// snapshot.
pub proof fn law_removal_notice_lists_bound_entities<A: HmrSource>(
    old_snapshots: LastSnapshot<A>,
    new_snapshots: LastSnapshot<A>,
    old_revisions: AssetRevision<A>,
    new_revisions: AssetRevision<A>,
    old_counters: Seq<int>,
    new_counters: Seq<int>,
    cache: HandleEntityCache<A>,
    graph: DependencyGraph,
    old_pending: Seq<CascadeRequest>,
    new_pending: Seq<CascadeRequest>,
    asset_type: u64,
    id: u128,
    removed: Option<ConfigRemoved<A::Config>>,
)
    requires
        removal_outcome(
            old_snapshots,
            new_snapshots,
            old_revisions,
            new_revisions,
            old_counters,
            new_counters,
            cache,
            graph,
            old_pending,
            new_pending,
            asset_type,
            id,
            removed,
        ),
    ensures
        removed is Some <==> old_snapshots.map@.contains_key(id),
        removed matches Some(r) ==> r.asset_id == id && (forall|e: u64|
            #[trigger] r.target_entities@.contains(e) <==> cache@.contains_key(e) && cache@[e]
                == id) && (forall|i: int, j: int|
            0 <= i < j < r.target_entities@.len() ==> r.target_entities@[i]
                != r.target_entities@[j]),
        !new_snapshots.map@.contains_key(id),
{
    if let Some(r) = removed {
        assert forall|e: u64| #[trigger] r.target_entities@.contains(e) <==> cache@.contains_key(e)
            && cache@[e] == id by {
            assert(r.target_entities@.to_set().contains(e) == r.target_entities@.contains(e));
        }
    }
}

/// A path recovered from the live bindings belongs to a binding whose
/// handle refers to that asset (the first such binding); when no binding
/// refers to the asset, nothing is recovered.
pub proof fn law_recovered_path_comes_from_own_binding(bindings: Seq<BoundHandle>, id: u128)
    ensures
        first_bound_path(bindings, id) matches Some(p) ==> exists|i: int|
            0 <= i < bindings.len() && #[trigger] bindings[i].id == id && opt_string_view(
                bindings[i].path,
            ) == Some(p) && forall|j: int| 0 <= j < i ==> bindings[j].id != id,
        (forall|i: int| 0 <= i < bindings.len() ==> #[trigger] bindings[i].id != id)
            ==> first_bound_path(bindings, id) is None,
    decreases bindings.len(),
{
    if bindings.len() > 0 {
        let rest = bindings.drop_first();
        law_recovered_path_comes_from_own_binding(rest, id);
        if bindings[0].id == id {
            if let Some(p) = first_bound_path(bindings, id) {
                assert(bindings[0].id == id);
            }
        } else {
            if let Some(p) = first_bound_path(bindings, id) {
                let i = choose|i: int|
                    0 <= i < rest.len() && #[trigger] rest[i].id == id && opt_string_view(
                        rest[i].path,
                    ) == Some(p) && forall|j: int| 0 <= j < i ==> rest[j].id != id;
                assert(bindings[i + 1].id == id);
                assert forall|j: int| 0 <= j < i + 1 implies bindings[j].id != id by {
                    if j > 0 {
                        assert(bindings[j] == rest[j - 1]);
                    }
                }
            }
            if forall|i: int| 0 <= i < bindings.len() ==> #[trigger] bindings[i].id != id {
                assert forall|i: int| 0 <= i < rest.len() implies #[trigger] rest[i].id != id by {
                    assert(rest[i] == bindings[i + 1]);
                }
            }
        }
    }
}

proof fn lemma_cleared_component_stays_absent(
    cm: Map<u64, Set<UntypedKey>>,
    updates: Seq<(u64, Set<UntypedKey>)>,
    component: u64,
    k: int,
)
    requires
        0 <= k < updates.len(),
        updates[k].0 == component,
        updates[k].1 == Set::<UntypedKey>::empty(),
        forall|j: int| k < j < updates.len() ==> #[trigger] updates[j].0 != component,
    ensures
        !apply_updates(cm, updates).0.contains_key(component),
    decreases updates.len(),
{
    if k < updates.len() - 1 {
        lemma_cleared_component_stays_absent(cm, updates.drop_last(), component, k);
        assert(updates.last().0 != component);
    }
}

/// Refreshing an entity with an update that clears a component's handles
/// (its last update for that component lists no asset) leaves that
/// component referencing nothing; and an entity none of whose components
/// references an asset is not among that asset's entities.
pub proof fn law_cleared_component_references_nothing(
    before: ReflectHandleCache,
    after: ReflectHandleCache,
    entity: u64,
    keep: Option<Set<u64>>,
    updates: Seq<(u64, Vec<UntypedKey>)>,
    component: u64,
    k: int,
    asset: UntypedKey,
)
    requires
        after.components() == with_entity(
            before.components(),
            entity,
            apply_updates(
                kept_components(components_of(before.components(), entity), keep),
                update_sets(updates),
            ).0,
        ),
        0 <= k < updates.len(),
        updates[k].0 == component,
        updates[k].1@.len() == 0,
        forall|j: int| k < j < updates.len() ==> #[trigger] updates[j].0 != component,
    ensures
        !components_of(after.components(), entity).contains_key(component),
        (forall|c: u64|
            #[trigger] components_of(after.components(), entity).contains_key(c)
                ==> !components_of(after.components(), entity)[c].contains(asset))
            ==> !after.entities_of(asset).contains(entity),
{
    let ups = update_sets(updates);
    assert(ups[k].1 =~= Set::<UntypedKey>::empty());
    assert forall|j: int| k < j < ups.len() implies #[trigger] ups[j].0 != component by {
        assert(updates[j].0 != component);
    }
    lemma_cleared_component_stays_absent(
        kept_components(components_of(before.components(), entity), keep),
        ups,
        component,
        k,
    );
    if forall|c: u64|
        #[trigger] components_of(after.components(), entity).contains_key(c)
            ==> !components_of(after.components(), entity)[c].contains(asset) {
        if after.components().contains_key(entity) {
            let cm = after.components()[entity];
            assert(components_of(after.components(), entity) == cm);
            if assets_of_components(cm).contains(asset) {
                let c = choose|c: u64| cm.contains_key(c) && #[trigger] cm[c].contains(asset);
                assert(components_of(after.components(), entity).contains_key(c));
            }
        }
    }
}

proof fn lemma_key_index_absent(keys: Seq<u128>, key: u128)
    ensures
        -1 <= key_index(keys, key) < keys.len(),
        key_index(keys, key) >= 0 ==> keys[key_index(keys, key)] == key,
        key_index(keys, key) == -1 ==> forall|j: int| 0 <= j < keys.len() ==> keys[j] != key,
    decreases keys.len(),
{
    if keys.len() > 0 {
        lemma_key_index_absent(keys.drop_last(), key);
        if key_index(keys, key) == -1 {
            assert forall|j: int| 0 <= j < keys.len() implies keys[j] != key by {
                if j < keys.len() - 1 {
                    assert(keys.drop_last()[j] == keys[j]);
                }
            }
        }
    }
}

/// The parent keys of `g` are pairwise distinct.
pub open spec fn keys_distinct(g: Seq<(u128, Seq<UntypedKey>)>) -> bool {
    forall|i: int, j: int| 0 <= i < j < g.len() ==> g[i].0 != g[j].0
}

/// Some group of `g` belongs to parent `parent` and lists `trigger`.
pub open spec fn listed_in(g: Seq<(u128, Seq<UntypedKey>)>, parent: u128, trigger: UntypedKey) -> bool {
    exists|i: int| 0 <= i < g.len() && #[trigger] g[i].0 == parent && g[i].1.contains(trigger)
}

/// Every request of `reqs` has its trigger listed in a group of its parent.
pub open spec fn lists_every_trigger(g: Seq<(u128, Seq<UntypedKey>)>, reqs: Seq<CascadeRequest>) -> bool {
    forall|k: int|
        #![trigger reqs[k]]
        0 <= k < reqs.len() ==> listed_in(g, reqs[k].parent.key, reqs[k].triggered_by)
}

/// Every trigger listed in a group of `g` comes from a request of `reqs`
/// for that group's parent.
pub open spec fn lists_only_triggers(g: Seq<(u128, Seq<UntypedKey>)>, reqs: Seq<CascadeRequest>) -> bool {
    forall|i: int, x: UntypedKey|
        0 <= i < g.len() && #[trigger] g[i].1.contains(x) ==> exists|k: int|
            0 <= k < reqs.len() && #[trigger] reqs[k].parent.key == g[i].0 && reqs[k].triggered_by
                == x
}

/// No group of `g` lists a trigger twice.
pub open spec fn lists_each_once(g: Seq<(u128, Seq<UntypedKey>)>) -> bool {
    forall|i: int| 0 <= i < g.len() ==> #[trigger] g[i].1.no_duplicates()
}

proof fn lemma_add_keeps_keys_distinct(g: Seq<(u128, Seq<UntypedKey>)>, key: u128, t: UntypedKey)
    requires
        keys_distinct(g),
    ensures
        keys_distinct(add_to_group(g, key, t)),
{
    let keys = group_keys(g);
    lemma_key_index_absent(keys, key);
    let idx = key_index(keys, key);
    let g2 = add_to_group(g, key, t);
    assert forall|j: int| 0 <= j < g.len() implies #[trigger] keys[j] == g[j].0 by {}
    if idx < 0 {
        assert forall|i: int, j: int| 0 <= i < j < g2.len() implies g2[i].0 != g2[j].0 by {
            if j == g.len() {
                assert(keys[i] == g[i].0);
            } else {
                assert(g2[i] == g[i] && g2[j] == g[j]);
            }
        }
    } else if !g[idx].1.contains(t) {
        assert forall|i: int, j: int| 0 <= i < j < g2.len() implies g2[i].0 != g2[j].0 by {
            assert(g2[i].0 == g[i].0);
            assert(g2[j].0 == g[j].0);
        }
    }
}

proof fn lemma_add_keeps_lists_each_once(g: Seq<(u128, Seq<UntypedKey>)>, key: u128, t: UntypedKey)
    requires
        lists_each_once(g),
    ensures
        lists_each_once(add_to_group(g, key, t)),
{
    let keys = group_keys(g);
    lemma_key_index_absent(keys, key);
    let idx = key_index(keys, key);
    let g2 = add_to_group(g, key, t);
    if idx < 0 {
        assert forall|i: int| 0 <= i < g2.len() implies #[trigger] g2[i].1.no_duplicates() by {
            if i < g.len() {
                assert(g2[i] == g[i]);
            }
        }
    } else if !g[idx].1.contains(t) {
        let grown = g[idx].1.push(t);
        assert(g2 == g.update(idx, (key, grown)));
        assert(g[idx].1.no_duplicates());
        assert forall|i: int| 0 <= i < g2.len() implies #[trigger] g2[i].1.no_duplicates() by {
            if i == idx {
                assert(g2[i].1 == grown);
                assert forall|a: int, b: int| 0 <= a < b < grown.len() implies grown[a]
                    != grown[b] by {
                    if b == grown.len() - 1 {
                        assert(g[idx].1[a] == grown[a]);
                        assert(grown[b] == t);
                        assert(g[idx].1[a] != t);
                    } else {
                        assert(g[idx].1[a] == grown[a] && g[idx].1[b] == grown[b]);
                    }
                }
            } else {
                assert(g2[i] == g[i]);
            }
        }
    }
}

proof fn lemma_add_keeps_every_trigger(
    g: Seq<(u128, Seq<UntypedKey>)>,
    prev: Seq<CascadeRequest>,
    r: CascadeRequest,
)
    requires
        lists_every_trigger(g, prev),
    ensures
        lists_every_trigger(add_to_group(g, r.parent.key, r.triggered_by), prev.push(r)),
{
    let key = r.parent.key;
    let t = r.triggered_by;
    let keys = group_keys(g);
    lemma_key_index_absent(keys, key);
    let idx = key_index(keys, key);
    let g2 = add_to_group(g, key, t);
    let reqs = prev.push(r);
    assert forall|j: int| 0 <= j < g.len() implies #[trigger] keys[j] == g[j].0 by {}
    assert forall|k: int| #![trigger reqs[k]] 0 <= k < reqs.len() implies listed_in(
        g2,
        reqs[k].parent.key,
        reqs[k].triggered_by,
    ) by {
        if k < prev.len() {
            assert(reqs[k] == prev[k]);
            assert(listed_in(g, prev[k].parent.key, prev[k].triggered_by));
            let i = choose|i: int|
                0 <= i < g.len() && #[trigger] g[i].0 == prev[k].parent.key && g[i].1.contains(
                    prev[k].triggered_by,
                );
            if idx >= 0 && i == idx && !g[idx].1.contains(t) {
                let grown = g[idx].1.push(t);
                assert(g2 == g.update(idx, (key, grown)));
                vstd::seq_lib::lemma_seq_contains_after_push(g[idx].1, t, prev[k].triggered_by);
                assert(keys[idx] == g[idx].0);
                assert(g2[i].0 == reqs[k].parent.key && g2[i].1.contains(reqs[k].triggered_by));
            } else {
                if idx < 0 {
                    assert(g2 == g.push((key, seq![t])));
                } else if !g[idx].1.contains(t) {
                    assert(g2 == g.update(idx, (key, g[idx].1.push(t))));
                }
                assert(g2[i] == g[i]);
                assert(g2[i].0 == reqs[k].parent.key && g2[i].1.contains(reqs[k].triggered_by));
            }
        } else {
            assert(reqs[k] == r);
            if idx < 0 {
                let n = g.len() as int;
                assert(g2 == g.push((key, seq![t])));
                assert(g2[n].1 == seq![t]);
                assert(g2[n].1[0] == t);
                assert(g2[n].0 == reqs[k].parent.key && g2[n].1.contains(reqs[k].triggered_by));
            } else if g[idx].1.contains(t) {
                assert(keys[idx] == g[idx].0);
                assert(g2[idx] == g[idx]);
                assert(g2[idx].0 == reqs[k].parent.key && g2[idx].1.contains(reqs[k].triggered_by));
            } else {
                let grown = g[idx].1.push(t);
                assert(g2 == g.update(idx, (key, grown)));
                assert(grown[grown.len() - 1] == t);
                assert(g2[idx].1.contains(t));
                assert(g2[idx].0 == reqs[k].parent.key && g2[idx].1.contains(reqs[k].triggered_by));
            }
        }
    }
}

proof fn lemma_add_keeps_only_triggers(
    g: Seq<(u128, Seq<UntypedKey>)>,
    prev: Seq<CascadeRequest>,
    r: CascadeRequest,
)
    requires
        lists_only_triggers(g, prev),
    ensures
        lists_only_triggers(add_to_group(g, r.parent.key, r.triggered_by), prev.push(r)),
{
    let key = r.parent.key;
    let t = r.triggered_by;
    let keys = group_keys(g);
    lemma_key_index_absent(keys, key);
    let idx = key_index(keys, key);
    let g2 = add_to_group(g, key, t);
    let reqs = prev.push(r);
    assert(reqs[prev.len() as int] == r);
    assert forall|i: int, x: UntypedKey|
        0 <= i < g2.len() && #[trigger] g2[i].1.contains(x) implies exists|k: int|
        0 <= k < reqs.len() && #[trigger] reqs[k].parent.key == g2[i].0 && reqs[k].triggered_by
            == x by {
        if idx < 0 && i == g.len() {
            assert(g2[i].1 == seq![t]);
            assert(x == t);
        } else if idx >= 0 && i == idx && !g[idx].1.contains(t) {
            vstd::seq_lib::lemma_seq_contains_after_push(g[idx].1, t, x);
            assert(keys[idx] == g[idx].0);
            if x != t {
                let k = choose|k: int|
                    0 <= k < prev.len() && #[trigger] prev[k].parent.key == g[i].0
                        && prev[k].triggered_by == x;
                assert(reqs[k] == prev[k]);
            }
        } else {
            assert(g2[i] == g[i]);
            let k = choose|k: int|
                0 <= k < prev.len() && #[trigger] prev[k].parent.key == g[i].0
                    && prev[k].triggered_by == x;
            assert(reqs[k] == prev[k]);
        }
    }
}

/// Grouping drained cascade requests by parent gives each parent one group
/// (the parent keys are pairwise distinct); each group lists every
/// triggering child drained for its parent, each once, and nothing else.
pub proof fn law_cascade_groups_one_per_parent(reqs: Seq<CascadeRequest>)
    ensures
        keys_distinct(grouped(reqs)),
        lists_every_trigger(grouped(reqs), reqs),
        lists_only_triggers(grouped(reqs), reqs),
        lists_each_once(grouped(reqs)),
    decreases reqs.len(),
{
    if reqs.len() > 0 {
        let prev = reqs.drop_last();
        let r = reqs.last();
        law_cascade_groups_one_per_parent(prev);
        assert(prev.push(r) =~= reqs);
        let g = grouped(prev);
        lemma_add_keeps_keys_distinct(g, r.parent.key, r.triggered_by);
        lemma_add_keeps_lists_each_once(g, r.parent.key, r.triggered_by);
        lemma_add_keeps_every_trigger(g, prev, r);
        lemma_add_keeps_only_triggers(g, prev, r);
    }
}

} // verus!
