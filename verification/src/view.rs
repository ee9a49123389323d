//! Revision-based routing for active and inactive config views.
//!
//! Each asset key carries a monotonic revision and a lifecycle status. A
//! view remembers the revision it last applied; active views are synced as
//! soon as their asset changes, inactive ones once when they are activated.

use std::collections::HashMap;
use std::marker::PhantomData;
use vstd::prelude::*;

verus! {

/// Current lifecycle state for one config asset revision.
#[derive(Clone, Debug, PartialEq, Eq)]
pub enum AssetRevisionStatus {
    /// The asset is loaded.
    Available,
    /// The asset was removed.
    Removed,
    /// Loading the asset failed; the last valid value stays in place.
    LoadFailed { source_path: String, error: String },
}

/// Revision and lifecycle state for one asset key.
#[derive(Clone, Debug, PartialEq, Eq)]
pub struct AssetRevisionEntry {
    /// Monotonic revision number.
    pub revision: u64,
    /// Lifecycle state at that revision.
    pub status: AssetRevisionStatus,
}

/// A copy of `status` equal to it.
pub fn copy_status(status: &AssetRevisionStatus) -> (copy: AssetRevisionStatus)
    ensures
        copy == *status,
{
    match status {
        AssetRevisionStatus::Available => AssetRevisionStatus::Available,
        AssetRevisionStatus::Removed => AssetRevisionStatus::Removed,
        AssetRevisionStatus::LoadFailed { source_path, error } => AssetRevisionStatus::LoadFailed {
            source_path: source_path.clone(),
            error: error.clone(),
        },
    }
}

/// Per-asset monotonic revision registry for one asset type.
pub struct AssetRevision<A> {
    /// Asset key -> its latest revision and status.
    pub entries: HashMap<u128, AssetRevisionEntry>,
    /// The last revision number handed out.
    pub next_revision: u64,
    /// Ties the registry to one asset type.
    pub marker: PhantomData<A>,
}

impl<A> View for AssetRevision<A> {
    type V = Map<u128, AssetRevisionEntry>;

    open spec fn view(&self) -> Map<u128, AssetRevisionEntry> {
        self.entries@
    }
}

impl<A> AssetRevision<A> {
    /// No recorded revision exceeds the last one handed out.
    pub open spec fn wf(&self) -> bool {
        forall|id: u128| #[trigger]
            self@.contains_key(id) ==> self@[id].revision <= self.next_revision
    }

    /// The revision recorded for `id`, if any.
    pub open spec fn revision_of(&self, id: u128) -> Option<u64> {
        if self@.contains_key(id) {
            Some(self@[id].revision)
        } else {
            None
        }
    }

    /// An empty registry.
    pub fn new() -> (revisions: Self)
        ensures
            revisions.wf(),
            revisions@ == Map::<u128, AssetRevisionEntry>::empty(),
            revisions.next_revision == 0,
    {
        AssetRevision { entries: HashMap::new(), next_revision: 0, marker: PhantomData }
    }

    /// The entry recorded for `id`.
    pub fn get(&self, id: u128) -> (entry: Option<&AssetRevisionEntry>)
        ensures
            match entry {
                Some(e) => self@.contains_key(id) && *e == self@[id],
                None => !self@.contains_key(id),
            },
    {
        self.entries.get(&id)
    }

    /// The revision recorded for `id`.
    pub fn revision(&self, id: u128) -> (revision: Option<u64>)
        ensures
            revision == self.revision_of(id),
    {
        match self.get(id) {
            Some(entry) => Some(entry.revision),
            None => None,
        }
    }

    /// The status recorded for `id`.
    pub fn status(&self, id: u128) -> (status: Option<&AssetRevisionStatus>)
        ensures
            match status {
                Some(s) => self@.contains_key(id) && *s == self@[id].status,
                None => !self@.contains_key(id),
            },
    {
        match self.get(id) {
            Some(entry) => Some(&entry.status),
            None => None,
        }
    }

    /// Hand out the next revision number (staying at the maximum) and record
    /// it for `id` with `status`.
    pub fn record(&mut self, id: u128, status: AssetRevisionStatus) -> (revision: u64)
        requires
            old(self).wf(),
        ensures
            final(self).wf(),
            revision == (if old(self).next_revision < u64::MAX {
                (old(self).next_revision + 1) as u64
            } else {
                u64::MAX
            }),
            final(self).next_revision == revision,
            final(self)@ == old(self)@.insert(id, AssetRevisionEntry { revision, status }),
    {
        self.next_revision = self.next_revision.saturating_add(1);
        let revision = self.next_revision;
        self.entries.insert(id, AssetRevisionEntry { revision, status });
        revision
    }

    /// Record that `id` is available.
    pub fn record_available(&mut self, id: u128) -> (revision: u64)
        requires
            old(self).wf(),
        ensures
            final(self).wf(),
            revision == (if old(self).next_revision < u64::MAX {
                (old(self).next_revision + 1) as u64
            } else {
                u64::MAX
            }),
            final(self).next_revision == revision,
            final(self)@ == old(self)@.insert(
                id,
                AssetRevisionEntry { revision, status: AssetRevisionStatus::Available },
            ),
    {
        self.record(id, AssetRevisionStatus::Available)
    }

    /// Record that `id` was removed.
    pub fn record_removed(&mut self, id: u128) -> (revision: u64)
        requires
            old(self).wf(),
        ensures
            final(self).wf(),
            revision == (if old(self).next_revision < u64::MAX {
                (old(self).next_revision + 1) as u64
            } else {
                u64::MAX
            }),
            final(self).next_revision == revision,
            final(self)@ == old(self)@.insert(
                id,
                AssetRevisionEntry { revision, status: AssetRevisionStatus::Removed },
            ),
    {
        self.record(id, AssetRevisionStatus::Removed)
    }

    /// Record that loading `id` from `source_path` failed with `error`.
    pub fn record_failed(&mut self, id: u128, source_path: String, error: String) -> (revision:
        u64)
        requires
            old(self).wf(),
        ensures
            final(self).wf(),
            revision == (if old(self).next_revision < u64::MAX {
                (old(self).next_revision + 1) as u64
            } else {
                u64::MAX
            }),
            final(self).next_revision == revision,
            final(self)@ == old(self)@.insert(
                id,
                AssetRevisionEntry {
                    revision,
                    status: AssetRevisionStatus::LoadFailed { source_path, error },
                },
            ),
    {
        self.record(id, AssetRevisionStatus::LoadFailed { source_path, error })
    }
}

impl<A> Default for AssetRevision<A> {
    fn default() -> (revisions: Self)
        ensures
            revisions.wf(),
            revisions@ == Map::<u128, AssetRevisionEntry>::empty(),
            revisions.next_revision == 0,
    {
        Self::new()
    }
}

/// Revision last applied by a derived view.
pub struct AppliedRevision<A> {
    /// Key of the asset the view is derived from.
    pub asset: u128,
    /// The revision the view last applied (0: nothing applied yet).
    pub revision: u64,
    /// Ties the record to one asset type.
    pub marker: PhantomData<A>,
}

impl<A> AppliedRevision<A> {
    /// A view of asset `asset` that applied nothing yet.
    pub fn new(asset: u128) -> (applied: Self)
        ensures
            applied.asset == asset,
            applied.revision == 0,
    {
        AppliedRevision { asset, revision: 0, marker: PhantomData }
    }

    /// Key of the asset the view is derived from.
    pub fn asset_id(&self) -> (id: u128)
        ensures
            id == self.asset,
    {
        self.asset
    }

    /// Whether the asset has a newer revision than the one applied.
    pub open spec fn stale_in(&self, revisions: &AssetRevision<A>) -> bool {
        revisions@.contains_key(self.asset) && revisions@[self.asset].revision > self.revision
    }

    /// Whether the asset has a newer revision than the one applied.
    pub fn is_stale(&self, revisions: &AssetRevision<A>) -> (stale: bool)
        ensures
            stale == self.stale_in(revisions),
    {
        match revisions.revision(self.asset) {
            Some(revision) => revision > self.revision,
            None => false,
        }
    }
}

/// Marker for a page/view that should be synchronized immediately.
#[derive(Clone, Copy, Debug, Default)]
pub struct ActiveConfigView;

/// Request to rebuild one active view from the current asset value.
pub struct ConfigViewSync<A> {
    /// The view entity.
    pub entity: u64,
    /// Key of the asset the view is derived from.
    pub asset_id: u128,
    /// Revision to apply.
    pub revision: u64,
    /// Lifecycle state at that revision.
    pub status: AssetRevisionStatus,
    /// Ties the request to one asset type.
    pub marker: PhantomData<A>,
}

/// When the view is stale, mark the current revision as applied and return
/// the sync request for it; otherwise change nothing.
pub fn emit_if_stale<A>(
    entity: u64,
    applied: &mut AppliedRevision<A>,
    revisions: &AssetRevision<A>,
) -> (sync: Option<ConfigViewSync<A>>)
    ensures
        final(applied).asset == old(applied).asset,
        if old(applied).stale_in(revisions) {
            let entry = revisions@[old(applied).asset];
            &&& final(applied).revision == entry.revision
            &&& sync matches Some(s) && s.entity == entity && s.asset_id == old(applied).asset
                && s.revision == entry.revision && s.status == entry.status
        } else {
            final(applied).revision == old(applied).revision && sync is None
        },
{
    let asset_id = applied.asset;
    match revisions.get(asset_id) {
        Some(entry) => {
            if entry.revision <= applied.revision {
                return None;
            }
            applied.revision = entry.revision;
            Some(
                ConfigViewSync {
                    entity,
                    asset_id,
                    revision: entry.revision,
                    status: copy_status(&entry.status),
                    marker: PhantomData,
                },
            )
        },
        None => None,
    }
}

/// One derived view as the router sees it.
pub struct ViewRecord<A> {
    /// The view entity.
    pub entity: u64,
    /// Revision the view last applied.
    pub applied: AppliedRevision<A>,
    /// Whether the view carries the active marker.
    pub active: bool,
}

/// Whether `targets` holds the pair (`entity`, `asset`).
pub open spec fn targeted(targets: Seq<(u64, u128)>, entity: u64, asset: u128) -> bool {
    targets.contains((entity, asset))
}

/// Whether `targets` holds the pair (`entity`, `asset`).
fn is_targeted(targets: &Vec<(u64, u128)>, entity: u64, asset: u128) -> (found: bool)
    ensures
        found == targeted(targets@, entity, asset),
{
    let mut i: usize = 0;
    while i < targets.len()
        invariant
            i <= targets@.len(),
            forall|j: int| 0 <= j < i ==> targets@[j] != (entity, asset),
        decreases targets@.len() - i,
    {
        let (e, a) = targets[i];
        if e == entity && a == asset {
            assert(targets@[i as int] == (entity, asset));
            return true;
        }
        i = i + 1;
    }
    false
}

/// Whether the router syncs `view`: it is active, one of the notices
/// targeted its entity for its own asset, and it is stale.
pub open spec fn routes_to<A>(
    view: ViewRecord<A>,
    targets: Seq<(u64, u128)>,
    revisions: &AssetRevision<A>,
) -> bool {
    &&& view.active
    &&& targeted(targets, view.entity, view.applied.asset)
    &&& view.applied.stale_in(revisions)
}

/// `view` after applying the current revision of its asset when `sync`.
pub open spec fn after_sync<A>(view: ViewRecord<A>, sync: bool, revisions: &AssetRevision<A>) -> (
    u64,
    bool,
    u128,
    u64,
) {
    (
        view.entity,
        view.active,
        view.applied.asset,
        if sync {
            revisions@[view.applied.asset].revision
        } else {
            view.applied.revision
        },
    )
}

/// The observable fields of a view record.
pub open spec fn fields<A>(view: ViewRecord<A>) -> (u64, bool, u128, u64) {
    (view.entity, view.active, view.applied.asset, view.applied.revision)
}

/// The observable fields of a sync request.
pub open spec fn sync_fields<A>(sync: ConfigViewSync<A>) -> (u64, u128, u64, AssetRevisionStatus) {
    (sync.entity, sync.asset_id, sync.revision, sync.status)
}

/// The sync requests, in view order, for the first `n` views: one for each
/// selected view that is stale, carrying its asset's current entry.
pub open spec fn planned_syncs<A>(
    views: Seq<ViewRecord<A>>,
    selected: Seq<bool>,
    revisions: &AssetRevision<A>,
    n: int,
) -> Seq<(u64, u128, u64, AssetRevisionStatus)>
    decreases n,
{
    if n <= 0 {
        Seq::empty()
    } else {
        let earlier = planned_syncs(views, selected, revisions, n - 1);
        let v = views[n - 1];
        if selected[n - 1] && v.applied.stale_in(revisions) {
            let entry = revisions@[v.applied.asset];
            earlier.push((v.entity, v.applied.asset, entry.revision, entry.status))
        } else {
            earlier
        }
    }
}

/// Sync every view of `views` selected by `selected`, and return the
/// requests in view order.
fn sync_selected<A>(
    views: &mut Vec<ViewRecord<A>>,
    selected: &Vec<bool>,
    revisions: &AssetRevision<A>,
) -> (syncs: Vec<ConfigViewSync<A>>)
    requires
        selected@.len() == old(views)@.len(),
    ensures
        final(views)@.len() == old(views)@.len(),
        forall|j: int|
            #![trigger final(views)@[j]]
            0 <= j < old(views)@.len() ==> fields(final(views)@[j]) == after_sync(
                old(views)@[j],
                selected@[j] && old(views)@[j].applied.stale_in(revisions),
                revisions,
            ),
        syncs@.map_values(|s: ConfigViewSync<A>| sync_fields(s)) == planned_syncs(
            old(views)@,
            selected@,
            revisions,
            old(views)@.len() as int,
        ),
{
    let mut syncs: Vec<ConfigViewSync<A>> = Vec::new();
    let ghost initial_views = views@;
    let mut j: usize = 0;
    while j < views.len()
        invariant
            j <= views@.len(),
            views@.len() == initial_views.len(),
            selected@.len() == initial_views.len(),
            forall|i: int| #![trigger views@[i]] j <= i < views@.len() ==> views@[i] == initial_views[i],
            forall|i: int|
                #![trigger views@[i]]
                0 <= i < j ==> fields(views@[i]) == after_sync(
                    initial_views[i],
                    selected@[i] && initial_views[i].applied.stale_in(revisions),
                    revisions,
                ),
            syncs@.map_values(|s: ConfigViewSync<A>| sync_fields(s)) == planned_syncs(
                initial_views,
                selected@,
                revisions,
                j as int,
            ),
        decreases views@.len() - j,
    {
        if selected[j] {
            let entity = views[j].entity;
            let active = views[j].active;
            let asset = views[j].applied.asset;
            let mut applied = AppliedRevision {
                asset,
                revision: views[j].applied.revision,
                marker: PhantomData,
            };
            let sync = emit_if_stale(entity, &mut applied, revisions);
            views.set(j, ViewRecord { entity, applied, active });
            if let Some(s) = sync {
                let ghost before = syncs@;
                syncs.push(s);
                assert(syncs@.map_values(|s: ConfigViewSync<A>| sync_fields(s)) =~= before.map_values(
                    |s: ConfigViewSync<A>| sync_fields(s),
                ).push(sync_fields(s)));
            }
        }
        j = j + 1;
    }
    syncs
}

/// Route refresh, removal and failure notices to the views they target:
/// `targets` holds the (entity, asset) pairs those notices carried. Only
/// active views whose own asset was targeted are synced, each at most once.
pub fn route_active_views<A>(
    targets: &Vec<(u64, u128)>,
    views: &mut Vec<ViewRecord<A>>,
    revisions: &AssetRevision<A>,
) -> (syncs: Vec<ConfigViewSync<A>>)
    ensures
        final(views)@.len() == old(views)@.len(),
        forall|j: int|
            #![trigger final(views)@[j]]
            0 <= j < old(views)@.len() ==> fields(final(views)@[j]) == after_sync(
                old(views)@[j],
                routes_to(old(views)@[j], targets@, revisions),
                revisions,
            ),
        syncs@.map_values(|s: ConfigViewSync<A>| sync_fields(s)) == planned_syncs(
            old(views)@,
            Seq::new(
                old(views)@.len(),
                |i: int|
                    old(views)@[i].active && targeted(
                        targets@,
                        old(views)@[i].entity,
                        old(views)@[i].applied.asset,
                    ),
            ),
            revisions,
            old(views)@.len() as int,
        ),
{
    let mut selected: Vec<bool> = Vec::new();
    let mut j: usize = 0;
    while j < views.len()
        invariant
            j <= views@.len(),
            selected@.len() == j,
            forall|i: int|
                #![trigger selected@[i]]
                0 <= i < j ==> selected@[i] == (views@[i].active && targeted(
                    targets@,
                    views@[i].entity,
                    views@[i].applied.asset,
                )),
        decreases views@.len() - j,
    {
        let hit = views[j].active && is_targeted(targets, views[j].entity, views[j].applied.asset);
        selected.push(hit);
        j = j + 1;
    }
    let ghost wanted = Seq::new(
        views@.len(),
        |i: int| views@[i].active && targeted(targets@, views@[i].entity, views@[i].applied.asset),
    );
    assert(selected@ =~= wanted);
    sync_selected(views, &selected, revisions)
}

/// Sync each newly activated view once, to the final state of its asset.
pub fn sync_activated_views<A>(
    activated: &mut Vec<ViewRecord<A>>,
    revisions: &AssetRevision<A>,
) -> (syncs: Vec<ConfigViewSync<A>>)
    ensures
        final(activated)@.len() == old(activated)@.len(),
        forall|j: int|
            #![trigger final(activated)@[j]]
            0 <= j < old(activated)@.len() ==> fields(final(activated)@[j]) == after_sync(
                old(activated)@[j],
                old(activated)@[j].applied.stale_in(revisions),
                revisions,
            ),
        syncs@.map_values(|s: ConfigViewSync<A>| sync_fields(s)) == planned_syncs(
            old(activated)@,
            Seq::new(old(activated)@.len(), |i: int| true),
            revisions,
            old(activated)@.len() as int,
        ),
{
    let mut selected: Vec<bool> = Vec::new();
    let mut j: usize = 0;
    while j < activated.len()
        invariant
            j <= activated@.len(),
            selected@.len() == j,
            forall|i: int| #![trigger selected@[i]] 0 <= i < j ==> selected@[i],
        decreases activated@.len() - j,
    {
        selected.push(true);
        j = j + 1;
    }
    assert(selected@ =~= Seq::new(activated@.len(), |i: int| true));
    sync_selected(activated, &selected, revisions)
}

} // verus!
