//! Index of the asset handles found in reflected components: per entity and
//! component the assets its reflected value references, per entity the
//! union of them, and per asset the entities referencing it.

use crate::event::UntypedKey;
use crate::reflect::{push_handle, ReflectHandleExtraction};
use crate::sets::keys_of;
use std::collections::{HashMap, HashSet};
use std::hash::Hash;
use vstd::std_specs::hash::obeys_key_model;
use std::time::Duration;
use vstd::prelude::*;

verus! {

/// Component -> referenced assets, as sets.
pub open spec fn component_sets(components: Map<u64, Vec<UntypedKey>>) -> Map<u64, Set<UntypedKey>> {
    components.map_values(|v: Vec<UntypedKey>| v@.to_set())
}

/// Every asset referenced by some component of `components`.
pub open spec fn assets_of_components(components: Map<u64, Set<UntypedKey>>) -> Set<UntypedKey> {
    Set::new(
        |a: UntypedKey|
            exists|c: u64| components.contains_key(c) && #[trigger] components[c].contains(a),
    )
}

/// Asset -> entities, as the nested type-tag/key index holds it.
pub open spec fn asset_view(index: Map<u64, HashMap<u128, HashSet<u64>>>) -> Map<UntypedKey, Set<u64>> {
    Map::new(
        |a: UntypedKey| index.contains_key(a.type_tag) && index[a.type_tag]@.contains_key(a.key),
        |a: UntypedKey| index[a.type_tag]@[a.key]@,
    )
}

/// The entities whose entry in `entity_index` holds `asset`.
pub open spec fn holders(entity_index: Map<u64, Set<UntypedKey>>, asset: UntypedKey) -> Set<u64> {
    Set::new(|e: u64| entity_index.contains_key(e) && entity_index[e].contains(asset))
}

/// `view` holds, for every asset, the entities of `entity_index` holding
/// it, plus `extra` for the assets where `with_extra` holds; assets held by
/// nobody have no entry.
pub open spec fn index_matches(
    view: Map<UntypedKey, Set<u64>>,
    entity_index: Map<u64, Set<UntypedKey>>,
    extra: u64,
    with_extra: spec_fn(UntypedKey) -> bool,
) -> bool {
    &&& forall|a: UntypedKey| #[trigger]
        view.contains_key(a) ==> view[a] == (if with_extra(a) {
            holders(entity_index, a).insert(extra)
        } else {
            holders(entity_index, a)
        }) && view[a] != Set::<u64>::empty()
    &&& forall|a: UntypedKey| #[trigger]
        holders(entity_index, a) != Set::<u64>::empty() ==> view.contains_key(a)
    &&& forall|a: UntypedKey| with_extra(a) ==> #[trigger] view.contains_key(a)
}

/// Add `entity` to the holders of `asset`.
fn attach_holder(index: &mut HashMap<u64, HashMap<u128, HashSet<u64>>>, asset: UntypedKey, entity: u64)
    ensures
        asset_view(final(index)@) == asset_view(old(index)@).insert(
            asset,
            (if asset_view(old(index)@).contains_key(asset) {
                asset_view(old(index)@)[asset]
            } else {
                Set::<u64>::empty()
            }).insert(entity),
        ),
{
    let mut inner = match index.remove(&asset.type_tag) {
        Some(m) => m,
        None => HashMap::new(),
    };
    let mut set = match inner.remove(&asset.key) {
        Some(s) => s,
        None => HashSet::new(),
    };
    set.insert(entity);
    inner.insert(asset.key, set);
    index.insert(asset.type_tag, inner);
    proof {
        let old_view = asset_view(old(index)@);
        let want = old_view.insert(
            asset,
            (if old_view.contains_key(asset) {
                old_view[asset]
            } else {
                Set::<u64>::empty()
            }).insert(entity),
        );
        assert(asset_view(index@) =~= want);
    }
}

/// Take `entity` out of the holders of `asset`, dropping emptied entries.
fn detach_holder(index: &mut HashMap<u64, HashMap<u128, HashSet<u64>>>, asset: UntypedKey, entity: u64)
    ensures
        asset_view(final(index)@) == (if asset_view(old(index)@).contains_key(asset) {
            if asset_view(old(index)@)[asset].remove(entity) == Set::<u64>::empty() {
                asset_view(old(index)@).remove(asset)
            } else {
                asset_view(old(index)@).insert(asset, asset_view(old(index)@)[asset].remove(entity))
            }
        } else {
            asset_view(old(index)@)
        }),
{
    let ghost old_view = asset_view(index@);
    match index.remove(&asset.type_tag) {
        Some(mut inner) => {
            let ghost inner0 = inner@;
            match inner.remove(&asset.key) {
                Some(mut set) => {
                    set.remove(&entity);
                    if !set.is_empty() {
                        inner.insert(asset.key, set);
                    }
                },
                None => {},
            }
            if !inner.is_empty() {
                index.insert(asset.type_tag, inner);
            }
            proof {
                let want = if old_view.contains_key(asset) {
                    if old_view[asset].remove(entity) == Set::<u64>::empty() {
                        old_view.remove(asset)
                    } else {
                        old_view.insert(asset, old_view[asset].remove(entity))
                    }
                } else {
                    old_view
                };
                assert(asset_view(index@) =~= want);
            }
        },
        None => {
            assert(asset_view(index@) =~= old_view);
        },
    }
}

/// The assets referenced by any component of `components`, each once.
fn gather(components: &HashMap<u64, Vec<UntypedKey>>) -> (assets: Vec<UntypedKey>)
    ensures
        assets@.no_duplicates(),
        assets@.to_set() == assets_of_components(component_sets(components@)),
{
    let keys = keys_of(components);
    let mut assets: Vec<UntypedKey> = Vec::new();
    let mut i: usize = 0;
    while i < keys.len()
        invariant
            i <= keys@.len(),
            keys@.to_set() == components@.dom(),
            assets@.no_duplicates(),
            assets@.to_set() == Set::new(
                |a: UntypedKey|
                    exists|j: int|
                        0 <= j < i && #[trigger] components@[keys@[j]]@.contains(a),
            ),
        decreases keys@.len() - i,
    {
        let key = keys[i];
        assert(keys@.to_set().contains(key));
        let items = match components.get(&key) {
            Some(v) => v,
            None => {
                assert(false);
                return assets;
            },
        };
        let ghost before = assets@.to_set();
        let mut j: usize = 0;
        while j < items.len()
            invariant
                j <= items@.len(),
                assets@.no_duplicates(),
                assets@.to_set() == before + items@.take(j as int).to_set(),
            decreases items@.len() - j,
        {
            push_handle(&mut assets, items[j]);
            proof {
                assert(items@.take(j + 1) =~= items@.take(j as int).push(items@[j as int]));
                items@.take(j as int).lemma_push_to_set_commute(items@[j as int]);
                assert(assets@.to_set() =~= before + items@.take(j + 1).to_set());
            }
            j = j + 1;
        }
        proof {
            assert(items@.take(items@.len() as int) =~= items@);
            assert(assets@.to_set() =~= Set::new(
                |a: UntypedKey|
                    exists|j: int|
                        0 <= j < i + 1 && #[trigger] components@[keys@[j]]@.contains(a),
            )) by {
                assert forall|a: UntypedKey| #[trigger] assets@.to_set().contains(a) implies exists|
                    j: int,
                | 0 <= j < i + 1 && #[trigger] components@[keys@[j]]@.contains(a) by {
                    if !before.contains(a) {
                        assert(items@.contains(a));
                        assert(components@[keys@[i as int]]@.contains(a));
                    }
                }
                assert forall|a: UntypedKey|
                    (exists|j: int|
                        0 <= j < i + 1 && #[trigger] components@[keys@[j]]@.contains(
                            a,
                        )) implies assets@.to_set().contains(a) by {
                    let j = choose|j: int|
                        0 <= j < i + 1 && #[trigger] components@[keys@[j]]@.contains(a);
                    if j == i {
                        assert(items@.to_set().contains(a));
                    }
                }
            }
        }
        i = i + 1;
    }
    proof {
        let target = assets_of_components(component_sets(components@));
        assert forall|a: UntypedKey| #[trigger] assets@.to_set().contains(a) implies target.contains(
            a,
        ) by {
            let j = choose|j: int| 0 <= j < keys@.len() && #[trigger] components@[keys@[j]]@.contains(a);
            assert(keys@.to_set().contains(keys@[j]));
            assert(component_sets(components@)[keys@[j]].contains(a));
        }
        assert forall|a: UntypedKey| #[trigger] target.contains(a) implies assets@.to_set().contains(
            a,
        ) by {
            let c = choose|c: u64|
                component_sets(components@).contains_key(c) && #[trigger] component_sets(
                    components@,
                )[c].contains(a);
            assert(components@.dom().contains(c));
            assert(keys@.to_set().contains(c));
            let j = choose|j: int| 0 <= j < keys@.len() && keys@[j] == c;
            assert(components@[keys@[j]]@.contains(a));
        }
        assert(assets@.to_set() =~= target);
    }
    assets
}

/// Bidirectional index maintained by the reflected handle tracking: for
/// each entity and component the assets its reflected value references,
/// for each entity the union of them, and for each asset the entities
/// referencing it.
pub struct ReflectHandleCache {
    /// Entity -> component -> referenced assets (each once, never empty).
    pub component_to_assets: HashMap<u64, HashMap<u64, Vec<UntypedKey>>>,
    /// Entity -> all assets its reflected components reference (each once).
    pub entity_to_assets: HashMap<u64, Vec<UntypedKey>>,
    /// Asset type tag -> asset key -> entities referencing that asset.
    pub asset_to_entities: HashMap<u64, HashMap<u128, HashSet<u64>>>,
}

impl ReflectHandleCache {
    /// Entity -> component -> referenced assets.
    pub open spec fn components(&self) -> Map<u64, Map<u64, Set<UntypedKey>>> {
        self.component_to_assets@.map_values(
            |m: HashMap<u64, Vec<UntypedKey>>| component_sets(m@),
        )
    }

    /// The assets referenced by the reflected components of `entity`.
    pub open spec fn assets_of(&self, entity: u64) -> Set<UntypedKey> {
        if self.components().contains_key(entity) {
            assets_of_components(self.components()[entity])
        } else {
            Set::empty()
        }
    }

    /// The entities whose reflected components reference `asset`.
    pub open spec fn entities_of(&self, asset: UntypedKey) -> Set<u64> {
        Set::new(|e: u64| self.assets_of(e).contains(asset))
    }

    /// Entity -> assets, as the entity index holds it.
    pub open spec fn entity_index(&self) -> Map<u64, Set<UntypedKey>> {
        self.entity_to_assets@.map_values(|v: Vec<UntypedKey>| v@.to_set())
    }

    /// Asset -> entities, as the asset index holds it.
    pub open spec fn asset_index(&self) -> Map<UntypedKey, Set<u64>> {
        asset_view(self.asset_to_entities@)
    }

    /// The per-component entries are well formed: no entity keeps an empty
    /// component map, and every component keeps a non-empty list of
    /// distinct assets.
    pub open spec fn components_wf(&self) -> bool {
        forall|e: u64| #[trigger]
            self.component_to_assets@.contains_key(e) ==> {
                &&& self.component_to_assets@[e]@.dom() != Set::<u64>::empty()
                &&& forall|c: u64| #[trigger]
                    self.component_to_assets@[e]@.contains_key(c) ==> {
                        &&& self.component_to_assets@[e]@[c]@.no_duplicates()
                        &&& self.component_to_assets@[e]@[c]@.len() > 0
                    }
            }
    }

    /// The entity index entry of `entity` agrees with its components.
    pub open spec fn entity_entry_wf(&self, entity: u64) -> bool {
        &&& self.entity_index().contains_key(entity) <==> self.assets_of(entity) != Set::<
            UntypedKey,
        >::empty()
        &&& self.entity_index().contains_key(entity) ==> self.entity_index()[entity]
            == self.assets_of(entity) && self.entity_to_assets@[entity]@.no_duplicates()
    }

    /// The asset index holds, for every asset, the entities whose entity
    /// index entry holds it.
    pub open spec fn asset_index_wf(&self) -> bool {
        index_matches(self.asset_index(), self.entity_index(), 0, |a: UntypedKey| false)
    }

    /// All three levels of the index agree.
    pub open spec fn wf(&self) -> bool {
        &&& self.components_wf()
        &&& forall|e: u64| #[trigger] self.entity_entry_wf(e)
        &&& self.asset_index_wf()
    }

    /// An empty index.
    pub fn new() -> (cache: Self)
        ensures
            cache.wf(),
            cache.components() == Map::<u64, Map<u64, Set<UntypedKey>>>::empty(),
    {
        let cache = ReflectHandleCache {
            component_to_assets: HashMap::new(),
            entity_to_assets: HashMap::new(),
            asset_to_entities: HashMap::new(),
        };
        proof {
            assert(cache.components() =~= Map::empty());
            assert(cache.asset_index() =~= Map::empty());
            assert forall|e: u64| #[trigger] cache.entity_entry_wf(e) by {
                assert(!cache.entity_index().contains_key(e));
            }
            assert forall|a: UntypedKey| #[trigger]
                holders(cache.entity_index(), a) != Set::<u64>::empty() implies cache.asset_index().contains_key(a) by {
                assert(holders(cache.entity_index(), a) =~= Set::<u64>::empty());
            }
        }
        cache
    }

    /// Entities currently referencing `asset` through reflected components.
    pub fn entities_for(&self, asset: UntypedKey) -> (entities: Option<&HashSet<u64>>)
        requires
            self.wf(),
        ensures
            match entities {
                Some(set) => set@ == self.entities_of(asset) && set@ != Set::<u64>::empty(),
                None => self.entities_of(asset) == Set::<u64>::empty(),
            },
    {
        proof {
            assert(holders(self.entity_index(), asset) =~= self.entities_of(asset)) by {
                assert forall|e: u64| #[trigger] self.entities_of(asset).contains(e) implies holders(
                    self.entity_index(),
                    asset,
                ).contains(e) by {
                    assert(self.entity_entry_wf(e));
                }
                assert forall|e: u64| #[trigger] holders(self.entity_index(), asset).contains(
                    e,
                ) implies self.entities_of(asset).contains(e) by {
                    assert(self.entity_entry_wf(e));
                }
            }
        }
        let inner = self.asset_to_entities.get(&asset.type_tag);
        if inner.is_none() {
            assert(!self.asset_index().contains_key(asset));
            return None;
        }
        let inner = inner.unwrap();
        let found = inner.get(&asset.key);
        proof {
            if found is None {
                assert(!self.asset_index().contains_key(asset));
            } else {
                assert(self.asset_index().contains_key(asset));
                assert(self.asset_index()[asset] == holders(self.entity_index(), asset));
                assert(found.unwrap()@ == self.asset_index()[asset]);
            }
        }
        found
    }

    /// Asset ids currently referenced by `entity` through reflected
    /// components, each once.
    pub fn assets_for(&self, entity: u64) -> (assets: Option<&Vec<UntypedKey>>)
        requires
            self.wf(),
        ensures
            match assets {
                Some(v) => v@.to_set() == self.assets_of(entity) && v@.no_duplicates()
                    && v@.len() > 0,
                None => self.assets_of(entity) == Set::<UntypedKey>::empty(),
            },
    {
        assert(self.entity_entry_wf(entity));
        let found = self.entity_to_assets.get(&entity);
        proof {
            if let Some(v) = found {
                if v@.len() == 0 {
                    assert(v@.to_set() =~= Set::<UntypedKey>::empty());
                }
            }
        }
        found
    }

    /// Asset ids extracted from one component on one entity.
    pub fn component_assets(&self, entity: u64, component: u64) -> (assets: Option<&Vec<UntypedKey>>)
        ensures
            match assets {
                Some(v) => self.components().contains_key(entity) && self.components()[entity].contains_key(
                    component,
                ) && v@.to_set() == self.components()[entity][component],
                None => !(self.components().contains_key(entity) && self.components()[entity].contains_key(
                    component,
                )),
            },
    {
        match self.component_to_assets.get(&entity) {
            Some(inner) => inner.get(&component),
            None => None,
        }
    }
}

/// Whether `items` holds `item`.
fn holds(items: &Vec<UntypedKey>, item: UntypedKey) -> (found: bool)
    ensures
        found == items@.contains(item),
{
    let mut i: usize = 0;
    while i < items.len()
        invariant
            i <= items@.len(),
            forall|j: int| 0 <= j < i ==> items@[j] != item,
        decreases items@.len() - i,
    {
        if items[i] == item {
            return true;
        }
        i = i + 1;
    }
    false
}

/// Holders of `a` with `entity` added back when `member`.
proof fn lemma_holders_split(
    full: Map<u64, Set<UntypedKey>>,
    entity: u64,
    a: UntypedKey,
)
    ensures
        !holders(full.remove(entity), a).contains(entity),
        holders(full, a) == (if full.contains_key(entity) && full[entity].contains(a) {
            holders(full.remove(entity), a).insert(entity)
        } else {
            holders(full.remove(entity), a)
        }),
{
    let want = if full.contains_key(entity) && full[entity].contains(a) {
        holders(full.remove(entity), a).insert(entity)
    } else {
        holders(full.remove(entity), a)
    };
    assert(holders(full, a) =~= want);
}

impl ReflectHandleCache {
    /// Recompute the entity index entry of `entity` from its components, and
    /// move `entity` between the asset index entries to match.
    fn reindex_entity(&mut self, entity: u64)
        requires
            old(self).components_wf(),
            forall|e: u64| e != entity ==> #[trigger] old(self).entity_entry_wf(e),
            old(self).asset_index_wf(),
            old(self).entity_to_assets@.contains_key(entity) ==> old(
                self,
            ).entity_to_assets@[entity]@.no_duplicates(),
        ensures
            final(self).wf(),
            final(self).component_to_assets@ == old(self).component_to_assets@,
    {
        let ghost full = self.entity_index();
        let new_assets = match self.component_to_assets.get(&entity) {
            Some(m) => gather(m),
            None => Vec::new(),
        };
        let old_assets = match self.entity_to_assets.remove(&entity) {
            Some(v) => v,
            None => Vec::new(),
        };
        let ghost ei0 = self.entity_index();
        let ghost o = old_assets@.to_set();
        let ghost n = new_assets@.to_set();
        proof {
            assert(ei0 =~= full.remove(entity));
            assert(n == self.assets_of(entity)) by {
                if self.components().contains_key(entity) {
                    assert(self.components()[entity] == component_sets(
                        self.component_to_assets@[entity]@,
                    ));
                } else {
                    assert(n =~= Set::<UntypedKey>::empty());
                }
            }
            if !full.contains_key(entity) {
                assert(o =~= Set::<UntypedKey>::empty());
            }
            assert forall|a: UntypedKey| #[trigger]
                self.asset_index().contains_key(a) implies self.asset_index()[a] == (if o.contains(
                a,
            ) {
                holders(ei0, a).insert(entity)
            } else {
                holders(ei0, a)
            }) && self.asset_index()[a] != Set::<u64>::empty() by {
                lemma_holders_split(full, entity, a);
            }
            assert forall|a: UntypedKey| #[trigger]
                holders(ei0, a) != Set::<u64>::empty() implies self.asset_index().contains_key(a) by {
                lemma_holders_split(full, entity, a);
                if holders(full, a) == Set::<u64>::empty() {
                    assert(holders(ei0, a) =~= Set::<u64>::empty());
                }
            }
            assert forall|a: UntypedKey| o.contains(a) implies #[trigger] self.asset_index().contains_key(
                a,
            ) by {
                lemma_holders_split(full, entity, a);
                assert(holders(full, a).contains(entity));
            }
        }
        let mut i: usize = 0;
        while i < old_assets.len()
            invariant
                i <= old_assets@.len(),
                o == old_assets@.to_set(),
                n == new_assets@.to_set(),
                old_assets@.no_duplicates(),
                self.entity_index() == ei0,
                !ei0.contains_key(entity),
                self.component_to_assets@ == old(self).component_to_assets@,
                self.entity_to_assets@ == old(self).entity_to_assets@.remove(entity),
                index_matches(
                    self.asset_index(),
                    ei0,
                    entity,
                    |a: UntypedKey|
                        o.contains(a) && (n.contains(a) || !old_assets@.take(i as int).contains(
                            a,
                        )),
                ),
            decreases old_assets@.len() - i,
        {
            let a = old_assets[i];
            let keep = holds(&new_assets, a);
            let ghost before = self.asset_index();
            proof {
                assert(!old_assets@.take(i as int).contains(a)) by {
                    if old_assets@.take(i as int).contains(a) {
                        let j = choose|j: int| 0 <= j < i && #[trigger] old_assets@.take(i as int)[j] == a;
                        assert(old_assets@[j] == old_assets@[i as int]);
                    }
                }
                assert(old_assets@.take(i + 1) =~= old_assets@.take(i as int).push(a));
                assert(old_assets@.take(i + 1)[i as int] == a);
                assert(old_assets@.take(i + 1).contains(a));
                assert(o.contains(a));
                assert(before.contains_key(a));
            }
            if !keep {
                detach_holder(&mut self.asset_to_entities, a, entity);
                proof {
                    assert(before.contains_key(a));
                    assert(!holders(ei0, a).contains(entity)) by {
                        assert(!ei0.contains_key(entity));
                    }
                    assert(before[a].remove(entity) =~= holders(ei0, a));
                }
            } else {
                assert(self.asset_index() == before);
            }
            proof {
                let now = self.asset_index();
                assert forall|b: UntypedKey| b != a implies old_assets@.take(i + 1).contains(b)
                    == old_assets@.take(i as int).contains(b) by {
                    if old_assets@.take(i + 1).contains(b) {
                        let k = choose|k: int| 0 <= k < i + 1 && #[trigger] old_assets@.take(i + 1)[k] == b;
                        assert(old_assets@.take(i as int)[k] == b);
                    }
                }
                assert forall|b: UntypedKey| #[trigger]
                    now.contains_key(b) implies now[b] == (if o.contains(b) && (n.contains(b)
                    || !old_assets@.take(i + 1).contains(b)) {
                    holders(ei0, b).insert(entity)
                } else {
                    holders(ei0, b)
                }) && now[b] != Set::<u64>::empty() by {
                    if b != a {
                        assert(before.contains_key(b));
                        assert(now[b] == before[b]);
                    } else if keep {
                        assert(before.contains_key(b));
                    }
                }
                assert forall|b: UntypedKey| #[trigger]
                    holders(ei0, b) != Set::<u64>::empty() implies now.contains_key(b) by {
                    assert(before.contains_key(b));
                    if b == a && !keep {
                        assert(before[a].remove(entity) =~= holders(ei0, a));
                    }
                }
                assert forall|b: UntypedKey|
                    o.contains(b) && (n.contains(b) || !old_assets@.take(i + 1).contains(
                        b,
                    )) implies #[trigger] now.contains_key(b) by {
                    assert(before.contains_key(b));
                }
            }
            i = i + 1;
        }
        proof {
            assert(old_assets@.take(old_assets@.len() as int) =~= old_assets@);
            let f1 = |a: UntypedKey|
                o.contains(a) && (n.contains(a) || !old_assets@.take(i as int).contains(a));
            let f2 = |a: UntypedKey|
                n.contains(a) && (o.contains(a) || new_assets@.take(0).contains(a));
            assert forall|a: UntypedKey| #[trigger] f1(a) == f2(a) by {
                assert(new_assets@.take(0) =~= Seq::<UntypedKey>::empty());
                assert(old_assets@.take(i as int) == old_assets@);
            }
            assert(f1 =~= f2);
        }
        let mut j: usize = 0;
        while j < new_assets.len()
            invariant
                j <= new_assets@.len(),
                o == old_assets@.to_set(),
                n == new_assets@.to_set(),
                new_assets@.no_duplicates(),
                self.entity_index() == ei0,
                !ei0.contains_key(entity),
                self.component_to_assets@ == old(self).component_to_assets@,
                self.entity_to_assets@ == old(self).entity_to_assets@.remove(entity),
                index_matches(
                    self.asset_index(),
                    ei0,
                    entity,
                    |a: UntypedKey|
                        n.contains(a) && (o.contains(a) || new_assets@.take(j as int).contains(a)),
                ),
            decreases new_assets@.len() - j,
        {
            let a = new_assets[j];
            let kept = holds(&old_assets, a);
            let ghost before = self.asset_index();
            proof {
                assert(!new_assets@.take(j as int).contains(a)) by {
                    if new_assets@.take(j as int).contains(a) {
                        let k = choose|k: int| 0 <= k < j && #[trigger] new_assets@.take(j as int)[k] == a;
                        assert(new_assets@[k] == new_assets@[j as int]);
                    }
                }
                assert(new_assets@.take(j + 1) =~= new_assets@.take(j as int).push(a));
                assert(n.contains(a));
                assert(o.contains(a) == old_assets@.contains(a));
                assert(kept == o.contains(a));
            }
            if !kept {
                attach_holder(&mut self.asset_to_entities, a, entity);
                proof {
                    if !before.contains_key(a) {
                        assert(holders(ei0, a) =~= Set::<u64>::empty());
                    }
                }
            } else {
                assert(self.asset_index() == before);
            }
            proof {
                let now = self.asset_index();
                assert forall|b: UntypedKey| b != a implies new_assets@.take(j + 1).contains(b)
                    == new_assets@.take(j as int).contains(b) by {
                    if new_assets@.take(j + 1).contains(b) {
                        let k = choose|k: int| 0 <= k < j + 1 && #[trigger] new_assets@.take(j + 1)[k] == b;
                        assert(new_assets@.take(j as int)[k] == b);
                    }
                }
                assert(new_assets@.take(j + 1).contains(a)) by {
                    assert(new_assets@.take(j + 1)[j as int] == a);
                }
                assert forall|b: UntypedKey| #[trigger]
                    now.contains_key(b) implies now[b] == (if n.contains(b) && (o.contains(b)
                    || new_assets@.take(j + 1).contains(b)) {
                    holders(ei0, b).insert(entity)
                } else {
                    holders(ei0, b)
                }) && now[b] != Set::<u64>::empty() by {
                    if b != a {
                        assert(before.contains_key(b));
                        assert(now[b] == before[b]);
                        assert(new_assets@.take(j + 1).contains(b) == new_assets@.take(
                            j as int,
                        ).contains(b));
                        assert(before[b] != Set::<u64>::empty());
                        assert(before[b] == (if n.contains(b) && (o.contains(b)
                            || new_assets@.take(j as int).contains(b)) {
                            holders(ei0, b).insert(entity)
                        } else {
                            holders(ei0, b)
                        }));
                    } else if kept {
                        assert(before.contains_key(a));
                        assert(now == before);
                        assert(before[a] == holders(ei0, a).insert(entity));
                        assert(now[a].contains(entity));
                        assert(now[b] == (if n.contains(b) && (o.contains(b) || new_assets@.take(j + 1).contains(b)) {
                            holders(ei0, b).insert(entity)
                        } else {
                            holders(ei0, b)
                        }));
                    } else if before.contains_key(a) {
                        assert(before[a] == holders(ei0, a));
                        assert(now[a] == holders(ei0, a).insert(entity));
                        assert(now[a].contains(entity));
                        assert(now[b] == (if n.contains(b) && (o.contains(b) || new_assets@.take(j + 1).contains(b)) {
                            holders(ei0, b).insert(entity)
                        } else {
                            holders(ei0, b)
                        }));
                    } else {
                        assert(holders(ei0, a) =~= Set::<u64>::empty());
                        assert(now[a] == Set::<u64>::empty().insert(entity));
                        assert(now[a].contains(entity));
                        assert(now[b] == (if n.contains(b) && (o.contains(b) || new_assets@.take(j + 1).contains(b)) {
                            holders(ei0, b).insert(entity)
                        } else {
                            holders(ei0, b)
                        }));
                    }
                }
                assert forall|b: UntypedKey| #[trigger]
                    holders(ei0, b) != Set::<u64>::empty() implies now.contains_key(b) by {
                    assert(before.contains_key(b));
                }
                assert forall|b: UntypedKey|
                    n.contains(b) && (o.contains(b) || new_assets@.take(j + 1).contains(
                        b,
                    )) implies #[trigger] now.contains_key(b) by {
                    if b != a {
                        assert(before.contains_key(b));
                    }
                }
            }
            j = j + 1;
        }
        proof {
            assert(new_assets@.take(new_assets@.len() as int) =~= new_assets@);
        }
        let ghost nv = new_assets@;
        let ghost before_ei = self.entity_to_assets@;
        if new_assets.len() > 0 {
            self.entity_to_assets.insert(entity, new_assets);
        }
        proof {
            let ei = self.entity_index();
            if nv.len() > 0 {
                assert(n.contains(nv[0]));
                assert(self.entity_to_assets@ == before_ei.insert(entity, new_assets));
                assert(ei =~= ei0.insert(entity, n));
            } else {
                assert(n =~= Set::<UntypedKey>::empty());
                assert(ei =~= ei0);
            }
            assert forall|a: UntypedKey| #[trigger] holders(ei, a) == (if n.contains(a) {
                holders(ei0, a).insert(entity)
            } else {
                holders(ei0, a)
            }) by {
                let want = if n.contains(a) {
                    holders(ei0, a).insert(entity)
                } else {
                    holders(ei0, a)
                };
                assert(holders(ei, a) =~= want);
            }
            assert forall|a: UntypedKey| #[trigger]
                self.asset_index().contains_key(a) implies self.asset_index()[a] == holders(ei, a)
                && self.asset_index()[a] != Set::<u64>::empty() by {
                assert(holders(ei, a) == (if n.contains(a) {
                    holders(ei0, a).insert(entity)
                } else {
                    holders(ei0, a)
                }));
            }
            assert forall|a: UntypedKey| #[trigger]
                holders(ei, a) != Set::<u64>::empty() implies self.asset_index().contains_key(a) by {
                if !n.contains(a) {
                    assert(holders(ei, a) == holders(ei0, a));
                }
            }
            assert forall|e: u64| #[trigger] self.entity_entry_wf(e) by {
                if e != entity {
                    assert(old(self).entity_entry_wf(e));
                    assert(self.assets_of(e) == old(self).assets_of(e));
                }
                if n == Set::<UntypedKey>::empty() && e == entity {
                    assert(!ei.contains_key(entity));
                }
            }
        }
    }

    /// Forget `entity`: its components, its entity index entry, and its
    /// place among the holders of every asset it referenced.
    pub fn remove_entity(&mut self, entity: u64)
        requires
            old(self).wf(),
        ensures
            final(self).wf(),
            final(self).components() == old(self).components().remove(entity),
    {
        self.component_to_assets.remove(&entity);
        proof {
            assert(self.components() =~= old(self).components().remove(entity));
            assert forall|e: u64| e != entity implies #[trigger] self.entity_entry_wf(e) by {
                assert(old(self).entity_entry_wf(e));
                assert(self.assets_of(e) == old(self).assets_of(e));
            }
            assert(old(self).entity_entry_wf(entity));
        }
        self.reindex_entity(entity);
        proof {
            assert(self.components() =~= old(self).components().remove(entity));
        }
    }
}

/// The components of `entity`, none when it has no entry.
pub open spec fn components_of(
    components: Map<u64, Map<u64, Set<UntypedKey>>>,
    entity: u64,
) -> Map<u64, Set<UntypedKey>> {
    if components.contains_key(entity) {
        components[entity]
    } else {
        Map::empty()
    }
}

/// The components left after dropping those outside `keep`, when given.
pub open spec fn kept_components(cm: Map<u64, Set<UntypedKey>>, keep: Option<Set<u64>>) -> Map<
    u64,
    Set<UntypedKey>,
> {
    match keep {
        Some(k) => cm.restrict(k),
        None => cm,
    }
}

/// `cm` with the assets of `component` set to `assets`; an empty set drops
/// the component.
pub open spec fn with_component(
    cm: Map<u64, Set<UntypedKey>>,
    component: u64,
    assets: Set<UntypedKey>,
) -> Map<u64, Set<UntypedKey>> {
    if assets == Set::<UntypedKey>::empty() {
        cm.remove(component)
    } else {
        cm.insert(component, assets)
    }
}

/// Whether setting `component` to `assets` counts as a change: anything but
/// an existing entry with the same assets does.
pub open spec fn component_differs(
    cm: Map<u64, Set<UntypedKey>>,
    component: u64,
    assets: Set<UntypedKey>,
) -> bool {
    !(cm.contains_key(component) && cm[component] == assets)
}

/// The components after applying `updates` in order, and how many of them
/// counted as a change.
pub open spec fn apply_updates(
    cm: Map<u64, Set<UntypedKey>>,
    updates: Seq<(u64, Set<UntypedKey>)>,
) -> (Map<u64, Set<UntypedKey>>, nat)
    decreases updates.len(),
{
    if updates.len() == 0 {
        (cm, 0)
    } else {
        let (m, count) = apply_updates(cm, updates.drop_last());
        let (c, assets) = updates.last();
        (
            with_component(m, c, assets),
            if component_differs(m, c, assets) {
                count + 1
            } else {
                count
            },
        )
    }
}

/// The updates with their asset lists as sets.
pub open spec fn update_sets(updates: Seq<(u64, Vec<UntypedKey>)>) -> Seq<(u64, Set<UntypedKey>)> {
    updates.map_values(|u: (u64, Vec<UntypedKey>)| (u.0, u.1@.to_set()))
}

/// The view of an optional set of kept components.
pub open spec fn keep_view(keep: Option<&HashSet<u64>>) -> Option<Set<u64>> {
    match keep {
        Some(k) => Some(k@),
        None => None,
    }
}

/// `components` with the entry of `entity` set to `cm`, dropped when empty.
pub open spec fn with_entity(
    components: Map<u64, Map<u64, Set<UntypedKey>>>,
    entity: u64,
    cm: Map<u64, Set<UntypedKey>>,
) -> Map<u64, Map<u64, Set<UntypedKey>>> {
    if cm.dom() == Set::<u64>::empty() {
        components.remove(entity)
    } else {
        components.insert(entity, cm)
    }
}

/// Whether `left` and `right` hold the same assets.
fn same_members(left: &Vec<UntypedKey>, right: &Vec<UntypedKey>) -> (same: bool)
    ensures
        same == (left@.to_set() == right@.to_set()),
{
    let mut i: usize = 0;
    while i < left.len()
        invariant
            i <= left@.len(),
            forall|k: int| 0 <= k < i ==> right@.contains(#[trigger] left@[k]),
        decreases left@.len() - i,
    {
        if !holds(right, left[i]) {
            proof {
                assert(left@.to_set().contains(left@[i as int]));
                assert(!right@.to_set().contains(left@[i as int]));
            }
            return false;
        }
        i = i + 1;
    }
    let mut j: usize = 0;
    while j < right.len()
        invariant
            j <= right@.len(),
            forall|k: int| 0 <= k < left@.len() ==> right@.contains(#[trigger] left@[k]),
            forall|k: int| 0 <= k < j ==> left@.contains(#[trigger] right@[k]),
        decreases right@.len() - j,
    {
        if !holds(left, right[j]) {
            proof {
                assert(right@.to_set().contains(right@[j as int]));
                assert(!left@.to_set().contains(right@[j as int]));
            }
            return false;
        }
        j = j + 1;
    }
    proof {
        assert forall|a: UntypedKey| left@.to_set().contains(a) implies right@.to_set().contains(a) by {
            let k = choose|k: int| 0 <= k < left@.len() && left@[k] == a;
            assert(right@.contains(left@[k]));
        }
        assert forall|a: UntypedKey| right@.to_set().contains(a) implies left@.to_set().contains(a) by {
            let k = choose|k: int| 0 <= k < right@.len() && right@[k] == a;
            assert(left@.contains(right@[k]));
        }
        assert(left@.to_set() =~= right@.to_set());
    }
    true
}

/// The distinct members of `items`.
fn distinct(items: &Vec<UntypedKey>) -> (unique: Vec<UntypedKey>)
    ensures
        unique@.no_duplicates(),
        unique@.to_set() == items@.to_set(),
{
    let mut unique: Vec<UntypedKey> = Vec::new();
    let mut i: usize = 0;
    while i < items.len()
        invariant
            i <= items@.len(),
            unique@.no_duplicates(),
            unique@.to_set() == items@.take(i as int).to_set(),
        decreases items@.len() - i,
    {
        push_handle(&mut unique, items[i]);
        proof {
            assert(items@.take(i + 1) =~= items@.take(i as int).push(items@[i as int]));
            items@.take(i as int).lemma_push_to_set_commute(items@[i as int]);
        }
        i = i + 1;
    }
    assert(items@.take(items@.len() as int) =~= items@);
    unique
}

/// With no update counted as a change, stored non-empty components stay.
proof fn lemma_no_change(cm: Map<u64, Set<UntypedKey>>, updates: Seq<(u64, Set<UntypedKey>)>)
    requires
        apply_updates(cm, updates).1 == 0,
        forall|c: u64| #[trigger] cm.contains_key(c) ==> cm[c] != Set::<UntypedKey>::empty(),
    ensures
        apply_updates(cm, updates).0 == cm,
    decreases updates.len(),
{
    if updates.len() > 0 {
        lemma_no_change(cm, updates.drop_last());
        let (c, assets) = updates.last();
        assert(cm.insert(c, assets) =~= cm);
    }
}

impl ReflectHandleCache {
    /// Update the reflected components of `entity`: when `keep` is given,
    /// components outside it are dropped first; then each update sets the
    /// assets of one component (an empty list drops it). The entity's index
    /// entries are rebuilt when anything changed. Returns how many updates
    /// counted as a change.
    pub fn refresh_entity(
        &mut self,
        entity: u64,
        keep: Option<&HashSet<u64>>,
        updates: &Vec<(u64, Vec<UntypedKey>)>,
    ) -> (cache_updates: u64)
        requires
            old(self).wf(),
        ensures
            final(self).wf(),
            final(self).components() == with_entity(
                old(self).components(),
                entity,
                apply_updates(
                    kept_components(components_of(old(self).components(), entity), keep_view(keep)),
                    update_sets(updates@),
                ).0,
            ),
            cache_updates == apply_updates(
                kept_components(components_of(old(self).components(), entity), keep_view(keep)),
                update_sets(updates@),
            ).1,
    {
        let ghost start = self.component_to_assets@;
        let ghost cm0 = components_of(self.components(), entity);
        let mut inner: HashMap<u64, Vec<UntypedKey>> = match self.component_to_assets.remove(&entity) {
            Some(m) => m,
            None => HashMap::new(),
        };
        let ghost raw0 = inner@;
        let ghost orig = inner;
        proof {
            assert(component_sets(raw0) =~= cm0);
            if start.contains_key(entity) {
                assert(orig == start[entity]);
            } else {
                assert(raw0 =~= Map::<u64, Vec<UntypedKey>>::empty());
            }
        }
        let mut removed_any = false;
        match keep {
            Some(k) => {
                let keys = keys_of(&inner);
                let mut i: usize = 0;
                while i < keys.len()
                    invariant
                        i <= keys@.len(),
                        keys@.to_set() == raw0.dom(),
                        keys@.no_duplicates(),
                        inner@ == raw0.restrict(
                            Set::new(
                                |c: u64| k@.contains(c) || !keys@.take(i as int).contains(c),
                            ),
                        ),
                        removed_any == exists|c: u64|
                            raw0.contains_key(c) && !k@.contains(c) && keys@.take(
                                i as int,
                            ).contains(c),
                        !removed_any ==> inner == orig,
                    decreases keys@.len() - i,
                {
                    let c = keys[i];
                    proof {
                        assert(keys@.take(i + 1) =~= keys@.take(i as int).push(c));
                        assert(keys@.take(i + 1)[i as int] == c);
                        assert(keys@.to_set().contains(c));
                    }
                    if !k.contains(&c) {
                        inner.remove(&c);
                        removed_any = true;
                    }
                    proof {
                        assert(inner@ =~= raw0.restrict(
                            Set::new(
                                |d: u64| k@.contains(d) || !keys@.take(i + 1).contains(d),
                            ),
                        ));
                    }
                    i = i + 1;
                }
                proof {
                    assert(keys@.take(keys@.len() as int) =~= keys@);
                    assert(inner@ =~= raw0.restrict(k@));
                    assert(component_sets(inner@) =~= kept_components(cm0, keep_view(keep)));
                    if !removed_any {
                        assert(inner@ =~= raw0);
                        assert(kept_components(cm0, keep_view(keep)) == cm0);
                    }
                }
            },
            None => {},
        }
        assert(!removed_any ==> kept_components(cm0, keep_view(keep)) == cm0);
        let ghost kept = kept_components(cm0, keep_view(keep));
        let ghost ups = update_sets(updates@);
        let ghost retained = inner;
        let mut count: u64 = 0;
        let mut i: usize = 0;
        while i < updates.len()
            invariant
                i <= updates@.len(),
                ups == update_sets(updates@),
                component_sets(inner@) == apply_updates(kept, ups.take(i as int)).0,
                count == apply_updates(kept, ups.take(i as int)).1,
                count <= i,
                count == 0 ==> inner == retained,
                forall|c: u64| #[trigger]
                    inner@.contains_key(c) ==> inner@[c]@.no_duplicates() && inner@[c]@.len() > 0,
            decreases updates@.len() - i,
        {
            let component = updates[i].0;
            let unique = distinct(&updates[i].1);
            let same = match inner.get(&component) {
                Some(current) => same_members(current, &unique),
                None => false,
            };
            let ghost m = component_sets(inner@);
            let ghost raw_before = inner@;
            let ghost unique_view = unique@;
            proof {
                assert(ups.take(i + 1).drop_last() =~= ups.take(i as int));
                assert(ups.take(i + 1).last() == (component, unique@.to_set()));
                assert(same == !component_differs(m, component, unique@.to_set()));
            }
            if !same {
                if unique.len() == 0 {
                    inner.remove(&component);
                    proof {
                        assert(unique_view.to_set() =~= Set::<UntypedKey>::empty());
                        assert(component_sets(inner@) =~= m.remove(component));
                    }
                } else {
                    proof {
                        assert(unique_view.to_set().contains(unique_view[0]));
                    }
                    inner.insert(component, unique);
                    proof {
                        assert(component_sets(inner@) =~= m.insert(component, unique_view.to_set()));
                    }
                }
                count = count + 1;
            } else {
                proof {
                    let cur = inner@[component]@;
                    assert(cur.to_set().contains(cur[0]));
                    assert(m[component] == cur.to_set());
                    assert(m.insert(component, unique_view.to_set()) =~= m);
                }
            }
            proof {
                assert(apply_updates(kept, ups.take(i + 1)).0 == with_component(
                    m,
                    component,
                    unique_view.to_set(),
                ));
            }
            proof {
                assert(component_sets(inner@) =~= apply_updates(kept, ups.take(i + 1)).0);
            }
            i = i + 1;
        }
        proof {
            assert(ups.take(ups.len() as int) =~= ups);
        }
        let dirty = removed_any || count > 0;
        let ghost model = component_sets(inner@);
        let ghost last = inner;
        proof {
            assert(model.dom() =~= inner@.dom());
        }
        if !inner.is_empty() {
            self.component_to_assets.insert(entity, inner);
        }
        proof {
            assert(self.components() =~= with_entity(old(self).components(), entity, model)) by {
                if model.dom() == Set::<u64>::empty() {
                    assert(last@.dom() =~= Set::<u64>::empty());
                } else {
                    assert(last@.dom() != Set::<u64>::empty());
                }
            }
        }
        if dirty {
            proof {
                assert forall|e: u64| e != entity implies #[trigger] self.entity_entry_wf(e) by {
                    assert(old(self).entity_entry_wf(e));
                    assert(self.assets_of(e) == old(self).assets_of(e));
                }
                assert(old(self).entity_entry_wf(entity));
            }
            self.reindex_entity(entity);
        } else {
            proof {
                assert(kept == cm0);
                assert forall|c: u64| #[trigger] cm0.contains_key(c) implies cm0[c] != Set::<
                    UntypedKey,
                >::empty() by {
                    let v = raw0[c];
                    assert(v@.len() > 0);
                    assert(v@.to_set().contains(v@[0]));
                }
                lemma_no_change(kept, ups);
                assert(last == orig);
                if start.contains_key(entity) {
                    assert(old(self).components_wf());
                    assert(start[entity]@.dom() != Set::<u64>::empty());
                    assert(self.component_to_assets@ =~= start);
                } else {
                    assert(self.component_to_assets@ =~= start);
                }
                assert(self.components() == old(self).components());
                assert(self.entity_index() == old(self).entity_index());
                assert(self.asset_index() == old(self).asset_index());
                assert(self.components_wf());
                assert forall|e: u64| #[trigger] self.entity_entry_wf(e) by {
                    assert(old(self).entity_entry_wf(e));
                }
            }
        }
        count
    }
}

/// Entity bits in ascending order.
pub open spec fn ascending(entities: Seq<u64>) -> bool {
    forall|i: int, j: int| 0 <= i < j < entities.len() ==> entities[i] <= entities[j]
}

/// Sorts `entities` in place with `slice::sort_unstable`, which orders them
/// ascending and keeps exactly the same elements.
#[verifier::external_body]
fn sort_entities(entities: &mut Vec<u64>)
    ensures
        ascending(final(entities)@),
        final(entities)@.to_multiset() == old(entities)@.to_multiset(),
{
    entities.sort_unstable();
}

/// Whether `items` holds `entity`.
fn holds_entity(items: &Vec<u64>, entity: u64) -> (found: bool)
    ensures
        found == items@.contains(entity),
{
    let mut i: usize = 0;
    while i < items.len()
        invariant
            i <= items@.len(),
            forall|j: int| 0 <= j < i ==> items@[j] != entity,
        decreases items@.len() - i,
    {
        if items[i] == entity {
            return true;
        }
        i = i + 1;
    }
    false
}

/// Merge the entities whose reflected components reference `asset` into a
/// typed binding snapshot `targets`: each one not already there is added,
/// then the whole list is sorted by entity bits. Without a tracker, or
/// when no reflected component references the asset, `targets` is left as
/// it is.
pub fn merge_target_entities(
    cache: Option<&ReflectHandleCache>,
    asset: UntypedKey,
    targets: &mut Vec<u64>,
)
    requires
        cache matches Some(c) ==> c.wf(),
    ensures
        match cache {
            Some(c) if c.entities_of(asset) != Set::<u64>::empty() => {
                &&& ascending(final(targets)@)
                &&& forall|x: u64| #[trigger]
                    final(targets)@.to_multiset().count(x) == old(targets)@.to_multiset().count(x)
                        + (if c.entities_of(asset).contains(x) && !old(targets)@.contains(x) {
                        1int
                    } else {
                        0int
                    })
            },
            _ => final(targets)@ == old(targets)@,
        },
{
    broadcast use vstd::seq_lib::to_multiset_build;
    broadcast use vstd::multiset::group_multiset_axioms;

    let reflected = match cache {
        Some(c) => c.entities_for(asset),
        None => None,
    };
    let set = match reflected {
        Some(set) => set,
        None => {
            return;
        },
    };
    let items = crate::sets::set_to_vec(set);
    let ghost base = targets@;
    let mut i: usize = 0;
    while i < items.len()
        invariant
            i <= items@.len(),
            items@.no_duplicates(),
            forall|y: u64| #[trigger]
                targets@.to_multiset().count(y) == base.to_multiset().count(y) + (if items@.take(
                    i as int,
                ).contains(y) && !base.contains(y) {
                    1int
                } else {
                    0int
                }),
            forall|y: u64| #[trigger]
                targets@.contains(y) == (base.contains(y) || items@.take(i as int).contains(y)),
        decreases items@.len() - i,
    {
        let x = items[i];
        proof {
            assert(items@.take(i + 1) =~= items@.take(i as int).push(x));
            assert(!items@.take(i as int).contains(x)) by {
                if items@.take(i as int).contains(x) {
                    let k = choose|k: int| 0 <= k < i && #[trigger] items@.take(i as int)[k] == x;
                    assert(items@[k] == items@[i as int]);
                }
            }
            assert(items@.take(i + 1)[i as int] == x);
        }
        let present = holds_entity(targets, x);
        let ghost before = targets@;
        if !present {
            targets.push(x);
            proof {
                assert forall|y: u64| #[trigger] targets@.contains(y) == (before.contains(y) || y == x) by {
                    if targets@.contains(y) && y != x {
                        let k = choose|k: int| 0 <= k < targets@.len() && #[trigger] targets@[k] == y;
                        assert(before[k] == y);
                    }
                    if y == x {
                        assert(targets@[before.len() as int] == x);
                    }
                    if before.contains(y) {
                        let k = choose|k: int| 0 <= k < before.len() && #[trigger] before[k] == y;
                        assert(targets@[k] == y);
                    }
                }
            }
        }
        proof {
            assert forall|y: u64| #[trigger]
                targets@.to_multiset().count(y) == base.to_multiset().count(y) + (if items@.take(
                    i + 1,
                ).contains(y) && !base.contains(y) {
                    1int
                } else {
                    0int
                }) by {
                assert(before.to_multiset().count(y) == base.to_multiset().count(y) + (
                if items@.take(i as int).contains(y) && !base.contains(y) {
                    1int
                } else {
                    0int
                }));
                assert(items@.take(i + 1).contains(y) == (items@.take(i as int).contains(y) || y
                    == x)) by {
                    if items@.take(i + 1).contains(y) && y != x {
                        let k = choose|k: int| 0 <= k < i + 1 && #[trigger] items@.take(i + 1)[k] == y;
                        assert(items@.take(i as int)[k] == y);
                    }
                    if items@.take(i as int).contains(y) {
                        let k = choose|k: int| 0 <= k < i && #[trigger] items@.take(i as int)[k] == y;
                        assert(items@.take(i + 1)[k] == y);
                    }
                }
                assert(before.contains(x) == (base.contains(x) || items@.take(i as int).contains(x)));
                if !present {
                    assert(targets@ == before.push(x));
                    assert(!base.contains(x));
                    vstd::seq_lib::to_multiset_build(before, x);
                    assert(targets@.to_multiset() =~= before.to_multiset().insert(x));
                } else {
                    assert(base.contains(x));
                }
            }
            assert forall|y: u64| #[trigger]
                targets@.contains(y) == (base.contains(y) || items@.take(i + 1).contains(y)) by {
                assert(items@.take(i + 1).contains(y) == (items@.take(i as int).contains(y) || y
                    == x)) by {
                    if items@.take(i + 1).contains(y) && y != x {
                        let k = choose|k: int| 0 <= k < i + 1 && #[trigger] items@.take(i + 1)[k] == y;
                        assert(items@.take(i as int)[k] == y);
                    }
                    if items@.take(i as int).contains(y) {
                        let k = choose|k: int| 0 <= k < i && #[trigger] items@.take(i as int)[k] == y;
                        assert(items@.take(i + 1)[k] == y);
                    }
                }
            }
        }
        i = i + 1;
    }
    let ghost merged = targets@;
    sort_entities(targets);
    proof {
        assert(items@.take(items@.len() as int) =~= items@);
        assert forall|y: u64| #[trigger] items@.contains(y) == set@.contains(y) by {
            assert(items@.to_set().contains(y) == items@.contains(y));
        }
    }
}

/// `Duration::ZERO`.
#[verifier::external_body]
fn zero_duration() -> Duration {
    Duration::ZERO
}

/// Cumulative diagnostics for the incremental reflected-handle scanner.
pub struct ReflectHandleTrackingMetrics {
    /// Scanner runs.
    pub frames_scanned: u64,
    /// Entities looked at.
    pub entities_scanned: u64,
    /// Component change ticks checked.
    pub component_ticks_checked: u64,
    /// Components whose reflected value was walked.
    pub components_reflected: u64,
    /// Reflected nodes visited over all walks.
    pub reflected_values_visited: u64,
    /// Handles found over all walks.
    pub handles_found: u64,
    /// Component entries of the index that changed.
    pub component_cache_updates: u64,
    /// Entities dropped from the index after despawn.
    pub entities_removed: u64,
    /// Full validations run.
    pub full_validations: u64,
    /// Walks stopped by the depth limit.
    pub max_depth_hits: u64,
    /// Component types found without component reflection data.
    pub missing_component_types: u64,
    /// Handle types found without handle reflection data.
    pub missing_handle_types: u64,
    /// Time spent scanning.
    pub scan_time: Duration,
}

impl ReflectHandleTrackingMetrics {
    /// The counters, in declaration order.
    pub open spec fn counts(&self) -> Seq<u64> {
        seq![
            self.frames_scanned,
            self.entities_scanned,
            self.component_ticks_checked,
            self.components_reflected,
            self.reflected_values_visited,
            self.handles_found,
            self.component_cache_updates,
            self.entities_removed,
            self.full_validations,
            self.max_depth_hits,
            self.missing_component_types,
            self.missing_handle_types,
        ]
    }

    /// All counters at zero and no scan time.
    pub fn new() -> (metrics: Self)
        ensures
            metrics.counts() == Seq::new(12, |i: int| 0u64),
    {
        let metrics = ReflectHandleTrackingMetrics {
            frames_scanned: 0,
            entities_scanned: 0,
            component_ticks_checked: 0,
            components_reflected: 0,
            reflected_values_visited: 0,
            handles_found: 0,
            component_cache_updates: 0,
            entities_removed: 0,
            full_validations: 0,
            max_depth_hits: 0,
            missing_component_types: 0,
            missing_handle_types: 0,
            scan_time: zero_duration(),
        };
        assert(metrics.counts() =~= Seq::new(12, |i: int| 0u64));
        metrics
    }
}

impl Default for ReflectHandleTrackingMetrics {
    fn default() -> (metrics: Self)
        ensures
            metrics.counts() == Seq::new(12, |i: int| 0u64),
    {
        Self::new()
    }
}

impl Default for ReflectHandleCache {
    fn default() -> (cache: Self)
        ensures
            cache.wf(),
            cache.components() == Map::<u64, Map<u64, Set<UntypedKey>>>::empty(),
    {
        Self::new()
    }
}

/// Whether a scan validates every reflected component: when the type
/// registry changed, when no validation ran yet, or when `interval`
/// nanoseconds passed since the last one (`since_last`).
pub fn validation_due(registry_changed: bool, since_last: Option<u128>, interval: u128) -> (due:
    bool)
    ensures
        due == (registry_changed || match since_last {
            None => true,
            Some(n) => n >= interval,
        }),
{
    registry_changed || match since_last {
        None => true,
        Some(n) => n >= interval,
    }
}

/// Whether a component is walked again in this scan: during a full
/// validation, when its entity moved to another archetype, or when the
/// component was added or changed since the last scan.
pub fn walk_needed(full_validation: bool, archetype_changed: bool, component_changed: bool) -> (walk:
    bool)
    ensures
        walk == (full_validation || archetype_changed || component_changed),
{
    full_validation || archetype_changed || component_changed
}

/// Record that `entity` was seen in archetype `archetype`; whether that
/// differs from what was recorded for it (an entity seen for the first time
/// counts as changed).
pub fn note_archetype(archetypes: &mut HashMap<u64, u64>, entity: u64, archetype: u64) -> (changed:
    bool)
    ensures
        final(archetypes)@ == old(archetypes)@.insert(entity, archetype),
        changed == !(old(archetypes)@.contains_key(entity) && old(archetypes)@[entity]
            == archetype),
{
    match archetypes.insert(entity, archetype) {
        Some(previous) => previous != archetype,
        None => true,
    }
}

/// Forget every recorded entity that is no longer live: it leaves the
/// archetype record and the reflected-handle index. Returns how many were
/// dropped.
pub fn prune_despawned(
    cache: &mut ReflectHandleCache,
    archetypes: &mut HashMap<u64, u64>,
    live: &HashSet<u64>,
) -> (removed: usize)
    requires
        old(cache).wf(),
    ensures
        final(cache).wf(),
        final(archetypes)@ == old(archetypes)@.restrict(live@),
        final(cache).components() == old(cache).components().remove_keys(
            old(archetypes)@.dom() - live@,
        ),
        removed == (old(archetypes)@.dom() - live@).len(),
{
    let keys = keys_of(archetypes);
    let mut removed: usize = 0;
    let mut i: usize = 0;
    proof {
        assert(keys@.take(0).to_set() - live@ =~= Set::<u64>::empty());
        assert(archetypes@ =~= old(archetypes)@.remove_keys(Set::<u64>::empty()));
        assert(cache.components() =~= old(cache).components().remove_keys(Set::<u64>::empty()));
    }
    while i < keys.len()
        invariant
            i <= keys@.len(),
            cache.wf(),
            keys@.to_set() == old(archetypes)@.dom(),
            keys@.no_duplicates(),
            archetypes@ == old(archetypes)@.remove_keys(keys@.take(i as int).to_set() - live@),
            cache.components() == old(cache).components().remove_keys(
                keys@.take(i as int).to_set() - live@,
            ),
            (keys@.take(i as int).to_set() - live@).finite(),
            removed == (keys@.take(i as int).to_set() - live@).len(),
            removed <= i,
        decreases keys@.len() - i,
    {
        let entity = keys[i];
        let ghost gone = keys@.take(i as int).to_set() - live@;
        let ghost next = keys@.take(i + 1).to_set() - live@;
        proof {
            assert(keys@.take(i + 1) =~= keys@.take(i as int).push(entity));
            keys@.take(i as int).lemma_push_to_set_commute(entity);
            assert(!keys@.take(i as int).contains(entity)) by {
                if keys@.take(i as int).contains(entity) {
                    let j = choose|j: int| 0 <= j < i && keys@.take(i as int)[j] == entity;
                    assert(keys@[j] == keys@[i as int]);
                }
            }
            assert(!gone.contains(entity));
        }
        if !live.contains(&entity) {
            cache.remove_entity(entity);
            archetypes.remove(&entity);
            removed = removed + 1;
            proof {
                assert(next =~= gone.insert(entity));
                assert(archetypes@ =~= old(archetypes)@.remove_keys(next));
                assert(cache.components() =~= old(cache).components().remove_keys(next));
            }
        } else {
            proof {
                assert(next =~= gone);
            }
        }
        i = i + 1;
    }
    proof {
        assert(keys@.take(keys@.len() as int) =~= keys@);
        assert(archetypes@ =~= old(archetypes)@.restrict(live@));
    }
    removed
}

impl ReflectHandleTrackingMetrics {
    /// Account one scan, and one full validation when `full_validation`;
    /// counters stay at their maximum instead of wrapping.
    pub fn note_scan(&mut self, full_validation: bool)
        ensures
            final(self).counts() == old(self).counts().update(
                0,
                sat_add_u64(old(self).frames_scanned, 1),
            ).update(
                8,
                if full_validation {
                    sat_add_u64(old(self).full_validations, 1)
                } else {
                    old(self).full_validations
                },
            ),
    {
        self.frames_scanned = self.frames_scanned.saturating_add(1);
        if full_validation {
            self.full_validations = self.full_validations.saturating_add(1);
        }
        proof {
            assert(self.counts() =~= old(self).counts().update(
                0,
                sat_add_u64(old(self).frames_scanned, 1),
            ).update(
                8,
                if full_validation {
                    sat_add_u64(old(self).full_validations, 1)
                } else {
                    old(self).full_validations
                },
            ));
        }
    }

    /// Account one walk of a reflected component and what it found.
    pub fn note_walk(&mut self, extraction: &ReflectHandleExtraction)
        ensures
            final(self).counts() == old(self).counts().update(
                3,
                sat_add_u64(old(self).components_reflected, 1),
            ).update(
                4,
                sat_add_u64(old(self).reflected_values_visited, extraction.visited_values as int),
            ).update(
                5,
                sat_add_u64(old(self).handles_found, extraction.handles@.len() as int),
            ).update(
                9,
                if extraction.max_depth_reached {
                    sat_add_u64(old(self).max_depth_hits, 1)
                } else {
                    old(self).max_depth_hits
                },
            ),
    {
        self.components_reflected = self.components_reflected.saturating_add(1);
        self.reflected_values_visited = self.reflected_values_visited.saturating_add(
            extraction.visited_values,
        );
        let found: u64 = if extraction.handles.len() as u128 <= u64::MAX as u128 {
            extraction.handles.len() as u64
        } else {
            u64::MAX
        };
        self.handles_found = self.handles_found.saturating_add(found);
        if extraction.max_depth_reached {
            self.max_depth_hits = self.max_depth_hits.saturating_add(1);
        }
        proof {
            assert(self.counts() =~= old(self).counts().update(
                3,
                sat_add_u64(old(self).components_reflected, 1),
            ).update(
                4,
                sat_add_u64(old(self).reflected_values_visited, extraction.visited_values as int),
            ).update(
                5,
                sat_add_u64(old(self).handles_found, extraction.handles@.len() as int),
            ).update(
                9,
                if extraction.max_depth_reached {
                    sat_add_u64(old(self).max_depth_hits, 1)
                } else {
                    old(self).max_depth_hits
                },
            ));
        }
    }
}

impl ReflectHandleTrackingMetrics {
    /// Note a component type found without component reflection data: it is
    /// remembered in `seen`, and counted (and reported `true`) only the first
    /// time.
    pub fn note_missing_component_type<K: Eq + Hash>(&mut self, seen: &mut HashSet<K>, ty: K) -> (first: bool)
        ensures
            obeys_key_model::<K>() ==> first == !old(seen)@.contains(ty) && final(seen)@ == old(
                seen,
            )@.insert(ty),
            final(self).counts() == old(self).counts().update(
                10,
                if first {
                    sat_add_u64(old(self).missing_component_types, 1)
                } else {
                    old(self).missing_component_types
                },
            ),
    {
        let first = seen.insert(ty);
        if first {
            self.missing_component_types = self.missing_component_types.saturating_add(1);
        }
        proof {
            assert(self.counts() =~= old(self).counts().update(
                10,
                if first {
                    sat_add_u64(old(self).missing_component_types, 1)
                } else {
                    old(self).missing_component_types
                },
            ));
        }
        first
    }

    /// Note a handle type (by its tag) found without handle reflection data:
    /// it is remembered in `seen`, and counted (and reported `true`) only the
    /// first time.
    pub fn note_missing_handle_type(&mut self, seen: &mut HashSet<u64>, tag: u64) -> (first: bool)
        ensures
            first == !old(seen)@.contains(tag),
            final(seen)@ == old(seen)@.insert(tag),
            final(self).counts() == old(self).counts().update(
                11,
                if first {
                    sat_add_u64(old(self).missing_handle_types, 1)
                } else {
                    old(self).missing_handle_types
                },
            ),
    {
        let first = seen.insert(tag);
        if first {
            self.missing_handle_types = self.missing_handle_types.saturating_add(1);
        }
        proof {
            assert(self.counts() =~= old(self).counts().update(
                11,
                if first {
                    sat_add_u64(old(self).missing_handle_types, 1)
                } else {
                    old(self).missing_handle_types
                },
            ));
        }
        first
    }
}

/// `x + y` as a counter value, staying at `u64::MAX`.
pub open spec fn sat_add_u64(x: u64, y: int) -> u64 {
    if x + y <= u64::MAX {
        (x + y) as u64
    } else {
        u64::MAX
    }
}

} // verus!
