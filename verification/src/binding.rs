//! Binding layer: bidirectional asset-handle <-> entity cache.
//!
//! Entities are identified by their `u64` bit pattern and assets of one type
//! by a `u128` key. The cache keeps two maps in step: asset key -> set of
//! bound entities, and entity -> asset key. Its abstract value is the
//! entity -> asset key map; the forward map is derived from it.

use std::collections::{HashMap, HashSet};
use std::marker::PhantomData;
use crate::sets::keys_of;
use vstd::prelude::*;

verus! {

/// Entities bound to `handle` in an entity -> handle binding map.
pub open spec fn bound_entities(bindings: Map<u64, u128>, handle: u128) -> Set<u64> {
    Set::new(|e: u64| bindings.contains_key(e) && bindings[e] == handle)
}

/// The two directions of an entity/handle cache agree with each other and
/// no handle keeps an empty entity set.
pub open spec fn caches_agree(
    handle_to_entities: Map<u128, HashSet<u64>>,
    entity_to_handle: Map<u64, u128>,
) -> bool {
    &&& forall|h: u128| #[trigger]
        handle_to_entities.contains_key(h) ==> handle_to_entities[h]@ == bound_entities(
            entity_to_handle,
            h,
        ) && handle_to_entities[h]@ != Set::<u64>::empty()
    &&& forall|e: u64| #[trigger]
        entity_to_handle.contains_key(e) ==> handle_to_entities.contains_key(entity_to_handle[e])
}

/// Bidirectional cache mapping an asset key to the set of entities bound to
/// it, and each entity back to its asset key.
pub struct HandleEntityCache<A> {
    /// Asset key -> set of entities bound to it.
    pub handle_to_entities: HashMap<u128, HashSet<u64>>,
    /// Reverse: entity -> asset key.
    pub entity_to_handle: HashMap<u64, u128>,
    /// Ties the cache to one asset type.
    pub marker: PhantomData<A>,
}

impl<A> View for HandleEntityCache<A> {
    type V = Map<u64, u128>;

    open spec fn view(&self) -> Map<u64, u128> {
        self.entity_to_handle@
    }
}

/// Remove `entity` from the entity set stored under `handle`, dropping the
/// set when it becomes empty.
pub(crate) fn detach_entity(
    handle_to_entities: &mut HashMap<u128, HashSet<u64>>,
    handle: u128,
    entity: u64,
)
    ensures
        final(handle_to_entities)@.dom() =~= (if old(handle_to_entities)@.contains_key(handle)
            && old(handle_to_entities)@[handle]@.remove(entity) == Set::<u64>::empty() {
            old(handle_to_entities)@.dom().remove(handle)
        } else {
            old(handle_to_entities)@.dom()
        }),
        forall|h: u128| #[trigger]
            final(handle_to_entities)@.contains_key(h) && h != handle ==> final(handle_to_entities)@[h] == old(handle_to_entities)@[h],
        final(handle_to_entities)@.contains_key(handle) ==> final(handle_to_entities)@[handle]@ == old(handle_to_entities)@[handle]@.remove(entity),
{
    if let Some(mut set) = handle_to_entities.remove(&handle) {
        set.remove(&entity);
        if !set.is_empty() {
            handle_to_entities.insert(handle, set);
        }
    }
}

/// Add `entity` to the entity set stored under `handle`, creating the set
/// when needed.
pub(crate) fn attach_entity(
    handle_to_entities: &mut HashMap<u128, HashSet<u64>>,
    handle: u128,
    entity: u64,
)
    ensures
        final(handle_to_entities)@.dom() =~= old(handle_to_entities)@.dom().insert(handle),
        forall|h: u128| #[trigger]
            final(handle_to_entities)@.contains_key(h) && h != handle ==> final(handle_to_entities)@[h] == old(handle_to_entities)@[h],
        final(handle_to_entities)@[handle]@ == (if old(handle_to_entities)@.contains_key(handle) {
            old(handle_to_entities)@[handle]@
        } else {
            Set::<u64>::empty()
        }).insert(entity),
{
    let mut set = match handle_to_entities.remove(&handle) {
        Some(set) => set,
        None => HashSet::new(),
    };
    set.insert(entity);
    handle_to_entities.insert(handle, set);
}

/// In agreeing caches, a handle has an entry exactly when some entity is
/// bound to it.
pub proof fn lemma_entry_iff_bound(
    handle_to_entities: Map<u128, HashSet<u64>>,
    entity_to_handle: Map<u64, u128>,
    handle: u128,
)
    requires
        caches_agree(handle_to_entities, entity_to_handle),
    ensures
        handle_to_entities.contains_key(handle) <==> bound_entities(entity_to_handle, handle)
            != Set::<u64>::empty(),
{
    if !handle_to_entities.contains_key(handle) {
        assert(bound_entities(entity_to_handle, handle) =~= Set::<u64>::empty()) by {
            assert forall|e: u64| !#[trigger] bound_entities(entity_to_handle, handle).contains(
                e,
            ) by {
                if entity_to_handle.contains_key(e) && entity_to_handle[e] == handle {
                    assert(handle_to_entities.contains_key(entity_to_handle[e]));
                }
            }
        }
    }
}

/// Bind `entity` to `handle` in both directions, replacing any earlier
/// binding of the entity. Returns the handle the entity was bound to before.
pub(crate) fn bind_entity(
    handle_to_entities: &mut HashMap<u128, HashSet<u64>>,
    entity_to_handle: &mut HashMap<u64, u128>,
    entity: u64,
    handle: u128,
) -> (previous: Option<u128>)
    requires
        caches_agree(old(handle_to_entities)@, old(entity_to_handle)@),
    ensures
        caches_agree(final(handle_to_entities)@, final(entity_to_handle)@),
        final(entity_to_handle)@ == old(entity_to_handle)@.insert(entity, handle),
        previous == (if old(entity_to_handle)@.contains_key(entity) {
            Some(old(entity_to_handle)@[entity])
        } else {
            None::<u128>
        }),
{
    let ghost old_e2h = entity_to_handle@;
    let ghost old_h2e = handle_to_entities@;
    let previous = entity_to_handle.insert(entity, handle);
    if let Some(old_handle) = previous {
        detach_entity(handle_to_entities, old_handle, entity);
    }
    attach_entity(handle_to_entities, handle, entity);
    let ghost new_e2h = entity_to_handle@;
    assert forall|h: u128| #[trigger]
        handle_to_entities@.contains_key(h) implies handle_to_entities@[h]@ == bound_entities(
        new_e2h,
        h,
    ) && handle_to_entities@[h]@ != Set::<u64>::empty() by {
        assert(handle_to_entities@[h]@ =~= bound_entities(new_e2h, h)) by {
            if old_h2e.contains_key(h) {
                assert(old_h2e[h]@ == bound_entities(old_e2h, h));
            }
        }
        assert(handle_to_entities@[h]@.contains(entity) || h != handle);
        if h != handle && !(previous.is_some() && previous.unwrap() == h) {
            assert(old_h2e[h]@ != Set::<u64>::empty());
        }
    }
    assert forall|e: u64| #[trigger] new_e2h.contains_key(e) implies handle_to_entities@.contains_key(
        new_e2h[e],
    ) by {
        if e != entity {
            let h = new_e2h[e];
            assert(old_h2e[h]@.contains(e));
            if previous.is_some() && previous.unwrap() == h && h != handle {
                assert(old_h2e[h]@.remove(entity).contains(e));
            }
        }
    }
    previous
}

/// Drop the binding of `entity` in both directions. Returns the handle it
/// was bound to.
pub(crate) fn unbind_entity(
    handle_to_entities: &mut HashMap<u128, HashSet<u64>>,
    entity_to_handle: &mut HashMap<u64, u128>,
    entity: u64,
) -> (previous: Option<u128>)
    requires
        caches_agree(old(handle_to_entities)@, old(entity_to_handle)@),
    ensures
        caches_agree(final(handle_to_entities)@, final(entity_to_handle)@),
        final(entity_to_handle)@ == old(entity_to_handle)@.remove(entity),
        previous == (if old(entity_to_handle)@.contains_key(entity) {
            Some(old(entity_to_handle)@[entity])
        } else {
            None::<u128>
        }),
{
    let ghost old_e2h = entity_to_handle@;
    let ghost old_h2e = handle_to_entities@;
    let previous = entity_to_handle.remove(&entity);
    if let Some(old_handle) = previous {
        detach_entity(handle_to_entities, old_handle, entity);
    }
    let ghost new_e2h = entity_to_handle@;
    assert forall|h: u128| #[trigger]
        handle_to_entities@.contains_key(h) implies handle_to_entities@[h]@ == bound_entities(
        new_e2h,
        h,
    ) && handle_to_entities@[h]@ != Set::<u64>::empty() by {
        assert(old_h2e[h]@ == bound_entities(old_e2h, h));
        assert(handle_to_entities@[h]@ =~= bound_entities(new_e2h, h));
    }
    assert forall|e: u64| #[trigger] new_e2h.contains_key(e) implies handle_to_entities@.contains_key(
        new_e2h[e],
    ) by {
        let h = new_e2h[e];
        assert(old_h2e[h]@.contains(e));
        if previous.is_some() && previous.unwrap() == h {
            assert(old_h2e[h]@.remove(entity).contains(e));
        }
    }
    previous
}

/// The entities bound to `handle`, read from the forward map.
pub(crate) fn entities_of<'a>(
    handle_to_entities: &'a HashMap<u128, HashSet<u64>>,
    entity_to_handle: &HashMap<u64, u128>,
    handle: &u128,
) -> (entities: Option<&'a HashSet<u64>>)
    requires
        caches_agree(handle_to_entities@, entity_to_handle@),
    ensures
        match entities {
            Some(set) => set@ == bound_entities(entity_to_handle@, *handle) && set@ != Set::<
                u64,
            >::empty(),
            None => bound_entities(entity_to_handle@, *handle) == Set::<u64>::empty(),
        },
{
    proof {
        lemma_entry_iff_bound(handle_to_entities@, entity_to_handle@, *handle);
    }
    handle_to_entities.get(handle)
}

impl<A> HandleEntityCache<A> {
    /// Both directions of the cache agree.
    pub open spec fn wf(&self) -> bool {
        caches_agree(self.handle_to_entities@, self.entity_to_handle@)
    }

    /// An empty cache.
    pub fn new() -> (cache: Self)
        ensures
            cache.wf(),
            cache@ == Map::<u64, u128>::empty(),
    {
        let cache = HandleEntityCache {
            handle_to_entities: HashMap::new(),
            entity_to_handle: HashMap::new(),
            marker: PhantomData,
        };
        assert(cache.handle_to_entities@ =~= Map::empty());
        cache
    }

    /// Register an (entity, handle) binding. If the entity was previously
    /// bound to a different handle, that prior binding is removed first.
    pub fn insert(&mut self, entity: u64, handle: u128)
        requires
            old(self).wf(),
        ensures
            final(self).wf(),
            final(self)@ == old(self)@.insert(entity, handle),
    {
        let _ = bind_entity(
            &mut self.handle_to_entities,
            &mut self.entity_to_handle,
            entity,
            handle,
        );
    }

    /// Look up all entities bound to the given handle.
    pub fn get_entities(&self, handle: &u128) -> (entities: Option<&HashSet<u64>>)
        requires
            self.wf(),
        ensures
            match entities {
                Some(set) => set@ == bound_entities(self@, *handle) && set@ != Set::<u64>::empty(),
                None => bound_entities(self@, *handle) == Set::<u64>::empty(),
            },
    {
        entities_of(&self.handle_to_entities, &self.entity_to_handle, handle)
    }

    /// Remove an entity from the cache (e.g. when it is despawned).
    pub fn remove(&mut self, entity: u64)
        requires
            old(self).wf(),
        ensures
            final(self).wf(),
            final(self)@ == old(self)@.remove(entity),
    {
        let _ = unbind_entity(&mut self.handle_to_entities, &mut self.entity_to_handle, entity);
    }

    /// Returns `true` if the cache currently has no bindings.
    pub fn is_empty(&self) -> (empty: bool)
        ensures
            empty == (self@ == Map::<u64, u128>::empty()),
    {
        let r = self.entity_to_handle.is_empty();
        proof {
            if !r {
                assert(self@.dom().len() > 0);
                assert(self@ != Map::<u64, u128>::empty());
            } else {
                assert(self@ =~= Map::<u64, u128>::empty());
            }
        }
        r
    }
}

/// The bindings left by registering each (entity, handle) pair of
/// `pairs` in order: a later pair for the same entity replaces an earlier one.
pub open spec fn bindings_of(pairs: Seq<(u64, u128)>) -> Map<u64, u128>
    decreases pairs.len(),
{
    if pairs.len() == 0 {
        Map::empty()
    } else {
        bindings_of(pairs.drop_last()).insert(pairs.last().0, pairs.last().1)
    }
}

impl<A> HandleEntityCache<A> {
    /// A cache holding the bindings of `pairs`, registered in order.
    pub fn from_bindings(pairs: &Vec<(u64, u128)>) -> (cache: Self)
        ensures
            cache.wf(),
            cache@ == bindings_of(pairs@),
    {
        let mut cache = Self::new();
        let mut i: usize = 0;
        while i < pairs.len()
            invariant
                i <= pairs.len(),
                cache.wf(),
                cache@ == bindings_of(pairs@.subrange(0, i as int)),
            decreases pairs.len() - i,
        {
            let (entity, handle) = pairs[i];
            cache.insert(entity, handle);
            proof {
                assert(pairs@.subrange(0, i + 1).drop_last() =~= pairs@.subrange(0, i as int));
            }
            i = i + 1;
        }
        assert(pairs@.subrange(0, pairs.len() as int) =~= pairs@);
        cache
    }

    /// Whether the cache holds exactly the bindings `expected` holds.
    pub fn same_bindings(&self, expected: &Self) -> (same: bool)
        ensures
            same == (self@ == expected@),
    {
        if self.entity_to_handle.len() != expected.entity_to_handle.len() {
            proof {
                if self@ == expected@ {
                    assert(self@.len() == expected@.len());
                }
            }
            return false;
        }
        let keys: Vec<u64> = keys_of(&expected.entity_to_handle);
        let mut i: usize = 0;
        while i < keys.len()
            invariant
                i <= keys.len(),
                keys@.to_set() == expected@.dom(),
                forall|j: int|
                    0 <= j < i ==> #[trigger] self@.contains_key(keys@[j]) && self@[keys@[j]]
                        == expected@[keys@[j]],
            decreases keys.len() - i,
        {
            let key = keys[i];
            assert(keys@.to_set().contains(key));
            let wanted = match expected.entity_to_handle.get(&key) {
                Some(h) => *h,
                None => {
                    assert(false);
                    0
                },
            };
            match self.entity_to_handle.get(&key) {
                Some(handle) => {
                    if *handle != wanted {
                        return false;
                    }
                },
                None => {
                    return false;
                },
            }
            i = i + 1;
        }
        proof {
            assert(expected@.dom().subset_of(self@.dom())) by {
                assert forall|k: u64| expected@.dom().contains(k) implies self@.dom().contains(k) by {
                    assert(keys@.to_set().contains(k));
                    let j = choose|j: int| 0 <= j < keys@.len() && keys@[j] == k;
                    assert(self@.contains_key(keys@[j]));
                }
            }
            vstd::set_lib::lemma_subset_equality(expected@.dom(), self@.dom());
            assert forall|k: u64| #[trigger] expected@.contains_key(k) implies self@[k] == expected@[k] by {
                assert(keys@.to_set().contains(k));
                let j = choose|j: int| 0 <= j < keys@.len() && keys@[j] == k;
                assert(self@.contains_key(keys@[j]));
            }
            assert(self@ =~= expected@);
        }
        true
    }

    /// Drift correction: rebuild the cache from the bindings that actually
    /// exist, `pairs`, and replace the cache when it differs from them.
    /// Returns whether it was replaced.
    pub fn validate(&mut self, pairs: &Vec<(u64, u128)>) -> (replaced: bool)
        requires
            old(self).wf(),
        ensures
            final(self).wf(),
            final(self)@ == bindings_of(pairs@),
            replaced == (old(self)@ != bindings_of(pairs@)),
    {
        let rebuilt = Self::from_bindings(pairs);
        if self.same_bindings(&rebuilt) {
            false
        } else {
            *self = rebuilt;
            true
        }
    }
}

impl<A> Default for HandleEntityCache<A> {
    fn default() -> (cache: Self)
        ensures
            cache.wf(),
            cache@ == Map::<u64, u128>::empty(),
    {
        Self::new()
    }
}

} // verus!
