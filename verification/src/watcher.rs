//! File-level change notification for any asset type: entity binding cache
//! and the decision of which notice each asset event produces.

use crate::binding::{bind_entity, bound_entities, caches_agree, entities_of, unbind_entity};
use crate::event::AssetEvent;
use crate::sets::set_to_vec;
use std::collections::{HashMap, HashSet};
use std::marker::PhantomData;
use vstd::prelude::*;

verus! {

/// The view of an optional string.
pub open spec fn opt_string_view(s: Option<String>) -> Option<Seq<char>> {
    match s {
        Some(s) => Some(s@),
        None => None,
    }
}

/// Cache mapping an asset key to the entities carrying a binding to it, and
/// each asset key to the source path its handle was loaded from.
pub struct AssetBindCache<A> {
    /// Asset key -> set of entities bound to that handle.
    pub handle_to_entities: HashMap<u128, HashSet<u64>>,
    /// Entity -> asset key (for cleanup).
    pub entity_to_handle: HashMap<u64, u128>,
    /// Asset key -> source path (relative to the asset root).
    pub path_registry: HashMap<u128, String>,
    /// Ties the cache to one asset type.
    pub marker: PhantomData<A>,
}

impl<A> AssetBindCache<A> {
    /// Both directions of the binding maps agree.
    pub open spec fn wf(&self) -> bool {
        caches_agree(self.handle_to_entities@, self.entity_to_handle@)
    }

    /// Entity -> asset key bindings.
    pub open spec fn bindings(&self) -> Map<u64, u128> {
        self.entity_to_handle@
    }

    /// Asset key -> recorded source path.
    pub open spec fn paths(&self) -> Map<u128, Seq<char>> {
        self.path_registry@.map_values(|s: String| s@)
    }

    /// An empty cache.
    pub fn new() -> (cache: Self)
        ensures
            cache.wf(),
            cache.bindings() == Map::<u64, u128>::empty(),
            cache.paths() == Map::<u128, Seq<char>>::empty(),
    {
        let cache = AssetBindCache {
            handle_to_entities: HashMap::new(),
            entity_to_handle: HashMap::new(),
            path_registry: HashMap::new(),
            marker: PhantomData,
        };
        assert(cache.handle_to_entities@ =~= Map::empty());
        assert(cache.paths() =~= Map::empty());
        cache
    }

    /// Insert or update an entity's binding. When the entity leaves a handle
    /// that no other entity is bound to, that handle's path is forgotten.
    pub fn insert(&mut self, entity: u64, id: u128)
        requires
            old(self).wf(),
        ensures
            final(self).wf(),
            final(self).bindings() == old(self).bindings().insert(entity, id),
            final(self).paths() == (if old(self).bindings().contains_key(entity) && old(
                self,
            ).bindings()[entity] != id && bound_entities(
                old(self).bindings(),
                old(self).bindings()[entity],
            ) == set![entity] {
                old(self).paths().remove(old(self).bindings()[entity])
            } else {
                old(self).paths()
            }),
    {
        let ghost old_bindings = self.entity_to_handle@;
        let previous = bind_entity(
            &mut self.handle_to_entities,
            &mut self.entity_to_handle,
            entity,
            id,
        );
        if let Some(old_id) = previous {
            if old_id != id && !self.handle_to_entities.contains_key(&old_id) {
                self.path_registry.remove(&old_id);
            }
        }
        proof {
            if previous.is_some() && previous.unwrap() != id {
                let p = previous.unwrap();
                crate::binding::lemma_entry_iff_bound(
                    self.handle_to_entities@,
                    self.entity_to_handle@,
                    p,
                );
                assert(old_bindings.contains_key(entity) && old_bindings[entity] == p);
                assert(bound_entities(self.entity_to_handle@, p) =~= bound_entities(
                    old_bindings,
                    p,
                ).remove(entity));
                if bound_entities(old_bindings, p) == set![entity] {
                    assert(bound_entities(self.entity_to_handle@, p) =~= Set::<u64>::empty());
                } else {
                    assert(bound_entities(old_bindings, p).contains(entity));
                    let others = bound_entities(old_bindings, p).remove(entity);
                    assert(others != Set::<u64>::empty()) by {
                        if others =~= Set::<u64>::empty() {
                            assert(bound_entities(old_bindings, p) =~= set![entity]);
                        }
                    }
                }
            }
        }
        assert(self.paths() =~= (if old_bindings.contains_key(entity) && old_bindings[entity] != id
            && bound_entities(old_bindings, old_bindings[entity]) == set![entity] {
            old(self).paths().remove(old_bindings[entity])
        } else {
            old(self).paths()
        }));
    }

    /// Remove an entity from the cache (on despawn / component removal).
    /// When it was the last entity bound to its handle, the handle's path is
    /// forgotten too.
    pub fn remove(&mut self, entity: u64)
        requires
            old(self).wf(),
        ensures
            final(self).wf(),
            final(self).bindings() == old(self).bindings().remove(entity),
            final(self).paths() == (if old(self).bindings().contains_key(entity) && bound_entities(
                old(self).bindings(),
                old(self).bindings()[entity],
            ) == set![entity] {
                old(self).paths().remove(old(self).bindings()[entity])
            } else {
                old(self).paths()
            }),
    {
        let ghost old_bindings = self.entity_to_handle@;
        let previous = unbind_entity(&mut self.handle_to_entities, &mut self.entity_to_handle, entity);
        if let Some(old_id) = previous {
            if !self.handle_to_entities.contains_key(&old_id) {
                self.path_registry.remove(&old_id);
            }
        }
        proof {
            if previous.is_some() {
                let p = previous.unwrap();
                crate::binding::lemma_entry_iff_bound(
                    self.handle_to_entities@,
                    self.entity_to_handle@,
                    p,
                );
                assert(bound_entities(self.entity_to_handle@, p) =~= bound_entities(
                    old_bindings,
                    p,
                ).remove(entity));
                if bound_entities(old_bindings, p) == set![entity] {
                    assert(bound_entities(self.entity_to_handle@, p) =~= Set::<u64>::empty());
                } else {
                    assert(bound_entities(old_bindings, p).contains(entity));
                    let others = bound_entities(old_bindings, p).remove(entity);
                    assert(others != Set::<u64>::empty()) by {
                        if others =~= Set::<u64>::empty() {
                            assert(bound_entities(old_bindings, p) =~= set![entity]);
                        }
                    }
                }
            }
        }
        assert(self.paths() =~= (if old_bindings.contains_key(entity) && bound_entities(
            old_bindings,
            old_bindings[entity],
        ) == set![entity] {
            old(self).paths().remove(old_bindings[entity])
        } else {
            old(self).paths()
        }));
    }

    /// Get the set of entities bound to the given asset key.
    pub fn get_entities(&self, id: &u128) -> (entities: Option<&HashSet<u64>>)
        requires
            self.wf(),
        ensures
            match entities {
                Some(set) => set@ == bound_entities(self.bindings(), *id) && set@ != Set::<
                    u64,
                >::empty(),
                None => bound_entities(self.bindings(), *id) == Set::<u64>::empty(),
            },
    {
        entities_of(&self.handle_to_entities, &self.entity_to_handle, id)
    }

    /// Record the source path for an asset key unless one is already known:
    /// the first path recorded wins.
    pub fn record_path(&mut self, id: u128, path: String)
        ensures
            final(self).wf() == old(self).wf(),
            final(self).bindings() == old(self).bindings(),
            final(self).paths() == (if old(self).paths().contains_key(id) {
                old(self).paths()
            } else {
                old(self).paths().insert(id, path@)
            }),
    {
        if !self.path_registry.contains_key(&id) {
            self.path_registry.insert(id, path);
        }
        assert(self.paths() =~= (if old(self).paths().contains_key(id) {
            old(self).paths()
        } else {
            old(self).paths().insert(id, path@)
        }));
    }

    /// Look up the source path for an asset key.
    pub fn get_path(&self, id: &u128) -> (path: Option<&str>)
        ensures
            match path {
                Some(p) => self.paths().contains_key(*id) && p@ == self.paths()[*id],
                None => !self.paths().contains_key(*id),
            },
    {
        match self.path_registry.get(id) {
            Some(p) => Some(p.as_str()),
            None => None,
        }
    }

    /// Whether the cache holds no binding.
    pub fn is_empty(&self) -> (empty: bool)
        ensures
            empty == (self.bindings() == Map::<u64, u128>::empty()),
    {
        let r = self.entity_to_handle.is_empty();
        proof {
            if !r {
                assert(self.bindings().dom().len() > 0);
                assert(self.bindings() != Map::<u64, u128>::empty());
            } else {
                assert(self.bindings() =~= Map::<u64, u128>::empty());
            }
        }
        r
    }

    /// The recorded path for `id`, or an empty string.
    fn path_or_empty(&self, id: u128) -> (path: String)
        ensures
            path@ == (if self.paths().contains_key(id) {
                self.paths()[id]
            } else {
                Seq::<char>::empty()
            }),
    {
        match self.path_registry.get(&id) {
            Some(p) => p.clone(),
            None => String::new(),
        }
    }

    /// The entities bound to `id`, each once.
    fn targets_of(&self, id: u128) -> (targets: Vec<u64>)
        requires
            self.wf(),
        ensures
            targets@.to_set() == bound_entities(self.bindings(), id),
            targets@.no_duplicates(),
    {
        match self.get_entities(&id) {
            Some(set) => set_to_vec(set),
            None => {
                let v: Vec<u64> = Vec::new();
                assert(v@.to_set() =~= Set::<u64>::empty());
                v
            },
        }
    }
}

impl<A> Default for AssetBindCache<A> {
    fn default() -> (cache: Self)
        ensures
            cache.wf(),
            cache.bindings() == Map::<u64, u128>::empty(),
            cache.paths() == Map::<u128, Seq<char>>::empty(),
    {
        Self::new()
    }
}

/// Notice sent when an asset was added or modified.
pub struct AssetChanged<A> {
    /// Key of the asset that changed.
    pub asset_id: u128,
    /// Entities bound to the asset when the notice was made.
    pub target_entities: Vec<u64>,
    /// Recorded source path, or empty.
    pub source_path: String,
    /// Ties the notice to one asset type.
    pub marker: PhantomData<A>,
}

/// Notice sent when an asset was removed.
pub struct AssetRemoved<A> {
    /// Key of the removed asset.
    pub asset_id: u128,
    /// Entities still bound to the asset when it was removed.
    pub target_entities: Vec<u64>,
    /// The path recorded before removal, or empty.
    pub source_path: String,
    /// Ties the notice to one asset type.
    pub marker: PhantomData<A>,
}

impl<A> Default for AssetRemoved<A> {
    fn default() -> (removed: Self)
        ensures
            removed.asset_id == 0,
            removed.target_entities@ == Seq::<u64>::empty(),
            removed.source_path@ == Seq::<char>::empty(),
    {
        AssetRemoved {
            asset_id: 0,
            target_entities: Vec::new(),
            source_path: String::new(),
            marker: PhantomData,
        }
    }
}

/// The notice one asset event produces.
pub enum WatchNotice<A> {
    /// The asset was added or modified.
    Changed(AssetChanged<A>),
    /// The asset was removed.
    Removed(AssetRemoved<A>),
}

/// The handle of one live binding component: its asset key and, when the
/// handle was loaded from a path, that path.
pub struct BoundHandle {
    /// Asset key of the handle.
    pub id: u128,
    /// The handle's source path, if it has one.
    pub path: Option<String>,
}

/// The path of the first binding whose handle refers to `id`, if that
/// handle has a path.
pub open spec fn first_bound_path(bindings: Seq<BoundHandle>, id: u128) -> Option<Seq<char>>
    decreases bindings.len(),
{
    if bindings.len() == 0 {
        None
    } else if bindings[0].id == id {
        opt_string_view(bindings[0].path)
    } else {
        first_bound_path(bindings.drop_first(), id)
    }
}

/// The path of the first binding in `bindings` whose handle refers to `id`.
pub fn find_bound_path(bindings: &Vec<BoundHandle>, id: u128) -> (path: Option<String>)
    ensures
        opt_string_view(path) == first_bound_path(bindings@, id),
{
    let mut i: usize = 0;
    assert(bindings@.skip(0) =~= bindings@);
    while i < bindings.len()
        invariant
            i <= bindings@.len(),
            first_bound_path(bindings@.skip(i as int), id) == first_bound_path(bindings@, id),
        decreases bindings@.len() - i,
    {
        assert(bindings@.skip(i as int).drop_first() =~= bindings@.skip(i as int + 1));
        if bindings[i].id == id {
            return match &bindings[i].path {
                Some(p) => Some(p.clone()),
                None => None,
            };
        }
        i = i + 1;
    }
    None
}

/// Register one binding component whose handle changed: bind the entity
/// and record the handle's path when it has one.
pub fn register_binding<A>(cache: &mut AssetBindCache<A>, entity: u64, handle: BoundHandle)
    requires
        old(cache).wf(),
    ensures
        final(cache).wf(),
        final(cache).bindings() == old(cache).bindings().insert(entity, handle.id),
        ({
            let unbound = if old(cache).bindings().contains_key(entity) && old(
                cache,
            ).bindings()[entity] != handle.id && bound_entities(
                old(cache).bindings(),
                old(cache).bindings()[entity],
            ) == set![entity] {
                old(cache).paths().remove(old(cache).bindings()[entity])
            } else {
                old(cache).paths()
            };
            final(cache).paths() == match handle.path {
                Some(p) => if unbound.contains_key(handle.id) {
                    unbound
                } else {
                    unbound.insert(handle.id, p@)
                },
                None => unbound,
            }
        }),
{
    let id = handle.id;
    cache.insert(entity, id);
    if let Some(path) = handle.path {
        cache.record_path(id, path);
    }
}

/// Decide the notice for one asset event and update the path registry:
/// `Added` recovers a forgotten path from the live bindings, `Removed`
/// releases the recorded path after reporting it. Other events produce no
/// notice.
pub fn watch_event<A>(
    cache: &mut AssetBindCache<A>,
    bindings: &Vec<BoundHandle>,
    event: AssetEvent,
) -> (notice: Option<WatchNotice<A>>)
    requires
        old(cache).wf(),
    ensures
        final(cache).wf(),
        final(cache).bindings() == old(cache).bindings(),
        match event {
            AssetEvent::Added { id } => {
                let paths = if !old(cache).paths().contains_key(id) && first_bound_path(
                    bindings@,
                    id,
                ) is Some {
                    old(cache).paths().insert(id, first_bound_path(bindings@, id).unwrap())
                } else {
                    old(cache).paths()
                };
                &&& final(cache).paths() == paths
                &&& notice matches Some(WatchNotice::Changed(c)) && c.asset_id == id
                    && c.target_entities@.to_set() == bound_entities(old(cache).bindings(), id)
                    && c.target_entities@.no_duplicates() && c.source_path@ == (if paths.contains_key(
                    id,
                ) {
                    paths[id]
                } else {
                    Seq::<char>::empty()
                })
            },
            AssetEvent::Modified { id } => {
                &&& final(cache).paths() == old(cache).paths()
                &&& notice matches Some(WatchNotice::Changed(c)) && c.asset_id == id
                    && c.target_entities@.to_set() == bound_entities(old(cache).bindings(), id)
                    && c.target_entities@.no_duplicates() && c.source_path@ == (
                if old(cache).paths().contains_key(id) {
                    old(cache).paths()[id]
                } else {
                    Seq::<char>::empty()
                })
            },
            AssetEvent::Removed { id } => {
                &&& final(cache).paths() == old(cache).paths().remove(id)
                &&& notice matches Some(WatchNotice::Removed(r)) && r.asset_id == id
                    && r.target_entities@.to_set() == bound_entities(old(cache).bindings(), id)
                    && r.target_entities@.no_duplicates() && r.source_path@ == (
                if old(cache).paths().contains_key(id) {
                    old(cache).paths()[id]
                } else {
                    Seq::<char>::empty()
                })
            },
            _ => final(cache).paths() == old(cache).paths() && notice is None,
        },
{
    match event {
        AssetEvent::Added { id } => {
            if cache.get_path(&id).is_none() {
                if let Some(path) = find_bound_path(bindings, id) {
                    cache.record_path(id, path);
                }
            }
            let target_entities = cache.targets_of(id);
            let source_path = cache.path_or_empty(id);
            Some(
                WatchNotice::Changed(
                    AssetChanged { asset_id: id, target_entities, source_path, marker: PhantomData },
                ),
            )
        },
        AssetEvent::Modified { id } => {
            let target_entities = cache.targets_of(id);
            let source_path = cache.path_or_empty(id);
            Some(
                WatchNotice::Changed(
                    AssetChanged { asset_id: id, target_entities, source_path, marker: PhantomData },
                ),
            )
        },
        AssetEvent::Removed { id } => {
            let target_entities = cache.targets_of(id);
            let source_path = match cache.path_registry.remove(&id) {
                Some(p) => p,
                None => String::new(),
            };
            assert(cache.paths() =~= old(cache).paths().remove(id));
            Some(
                WatchNotice::Removed(
                    AssetRemoved { asset_id: id, target_entities, source_path, marker: PhantomData },
                ),
            )
        },
        _ => None,
    }
}

} // verus!
