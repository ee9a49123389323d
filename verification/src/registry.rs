//! Registry mapping config type names to the asset paths registered for
//! them.

use vstd::hash_map::StringHashMap;
use vstd::prelude::*;

verus! {

/// The views of a list of strings.
pub open spec fn string_seq_view(list: Seq<String>) -> Seq<Seq<char>> {
    list.map_values(|s: String| s@)
}

/// `list` with `path` appended unless it already holds it.
pub open spec fn push_unique(list: Seq<Seq<char>>, path: Seq<char>) -> Seq<Seq<char>> {
    if list.contains(path) {
        list
    } else {
        list.push(path)
    }
}

/// Registry mapping a config type name to its deduplicated asset paths
/// (relative to the asset root, e.g. `"data/npc.ron"`), in registration
/// order.
pub struct ConfigPathRegistry {
    /// Type name -> deduplicated asset paths.
    pub paths: StringHashMap<Vec<String>>,
}

impl ConfigPathRegistry {
    /// Type name -> registered paths, as views.
    pub open spec fn path_lists(&self) -> Map<Seq<char>, Seq<Seq<char>>> {
        self.paths@.map_values(|list: Vec<String>| string_seq_view(list@))
    }

    /// An empty registry.
    pub fn new() -> (registry: Self)
        ensures
            registry.path_lists() == Map::<Seq<char>, Seq<Seq<char>>>::empty(),
    {
        let registry = ConfigPathRegistry { paths: StringHashMap::new() };
        assert(registry.path_lists() =~= Map::empty());
        registry
    }

    /// Register a path once for an asset type.
    pub fn register(&mut self, type_path: &str, path: &str)
        ensures
            final(self).path_lists() == old(self).path_lists().insert(
                type_path@,
                push_unique(
                    if old(self).path_lists().contains_key(type_path@) {
                        old(self).path_lists()[type_path@]
                    } else {
                        Seq::<Seq<char>>::empty()
                    },
                    path@,
                ),
            ),
    {
        let mut list: Vec<String> = match self.paths.get(type_path) {
            Some(existing) => existing.clone(),
            None => Vec::new(),
        };
        let ghost before = string_seq_view(list@);
        proof {
            if old(self).paths@.contains_key(type_path@) {
                let orig = old(self).paths@[type_path@];
                assert forall|i: int| 0 <= i < list@.len() implies list@[i] == orig@[i] by {
                    assert(cloned::<String>(orig@[i], list@[i]));
                }
                assert(list@ =~= orig@);
            } else {
                assert(before =~= Seq::<Seq<char>>::empty());
            }
        }
        let wanted = path.to_string();
        let mut found = false;
        let mut i: usize = 0;
        while i < list.len()
            invariant
                i <= list@.len(),
                found == string_seq_view(list@).take(i as int).contains(path@),
                before == string_seq_view(list@),
                wanted@ == path@,
            decreases list@.len() - i,
        {
            let same = list[i] == wanted;
            proof {
                let prefix = string_seq_view(list@).take(i as int);
                assert(string_seq_view(list@).take(i + 1) =~= prefix.push(list@[i as int]@));
                vstd::seq_lib::lemma_seq_contains_after_push(prefix, list@[i as int]@, path@);
            }
            if same {
                found = true;
            }
            i = i + 1;
        }
        assert(string_seq_view(list@).take(list@.len() as int) =~= string_seq_view(list@));
        if !found {
            list.push(wanted);
            assert(string_seq_view(list@) =~= before.push(path@));
        }
        self.paths.insert(type_path.to_string(), list);
        assert(self.path_lists() =~= old(self).path_lists().insert(
            type_path@,
            push_unique(before, path@),
        ));
    }
}

impl Default for ConfigPathRegistry {
    fn default() -> (registry: Self)
        ensures
            registry.path_lists() == Map::<Seq<char>, Seq<Seq<char>>>::empty(),
    {
        Self::new()
    }
}

} // verus!
