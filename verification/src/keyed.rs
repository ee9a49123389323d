//! The keyed diff of a list of entries that carry an id: which ids were
//! added, removed and modified between two versions of the list. An id that
//! occurs more than once in a version names no single entry, so it is
//! reported as modified rather than compared against an arbitrary entry.

use crate::refresh::ConfigDelta;
use crate::sets::clones_exact;
use std::collections::{HashMap, HashSet};
use std::hash::Hash;
use vstd::prelude::*;
use vstd::std_specs::cmp::PartialEqSpec;
use vstd::std_specs::hash::obeys_key_model;

verus! {

/// Whether `id` is the id of one of the first `n` entries of `s`.
pub open spec fn occurs_in<Id, E>(s: Seq<(Id, E)>, n: int, id: Id) -> bool {
    exists|i: int| 0 <= i < n && #[trigger] s[i].0 == id
}

/// Whether `id` is the id of two different entries among the first `n`
/// entries of `s`.
pub open spec fn repeats_in<Id, E>(s: Seq<(Id, E)>, n: int, id: Id) -> bool {
    exists|i: int, j: int| 0 <= i < j < n && #[trigger] s[i].0 == id && #[trigger] s[j].0 == id
}

/// The ids of the entries of `s`.
pub open spec fn ids_of<Id, E>(s: Seq<(Id, E)>) -> Set<Id> {
    Set::new(|id: Id| occurs_in(s, s.len() as int, id))
}

/// The ids that occur more than once in `s`.
pub open spec fn repeated_ids<Id, E>(s: Seq<(Id, E)>) -> Set<Id> {
    Set::new(|id: Id| repeats_in(s, s.len() as int, id))
}

/// The entry of `s` with id `id` (one of them, when the id repeats).
pub open spec fn entry_for<Id, E>(s: Seq<(Id, E)>, id: Id) -> E {
    s[choose|i: int| 0 <= i < s.len() && #[trigger] s[i].0 == id].1
}

/// The modified ids between `old` and `new`: those present in both whose
/// entries differ, and those that repeat in either version.
pub open spec fn keyed_modified<Id, E: PartialEq>(old: Seq<(Id, E)>, new: Seq<(Id, E)>) -> Set<Id> {
    Set::new(
        |id: Id|
            (ids_of(old).contains(id) && ids_of(new).contains(id) && !entry_for(old, id).eq_spec(
                &entry_for(new, id),
            )) || repeated_ids(old).contains(id) || repeated_ids(new).contains(id),
    )
}

proof fn lemma_occurs_step<Id, E>(s: Seq<(Id, E)>, n: int, id: Id)
    requires
        0 <= n < s.len(),
    ensures
        occurs_in(s, n + 1, id) <==> occurs_in(s, n, id) || s[n].0 == id,
{
    if occurs_in(s, n + 1, id) && !(s[n].0 == id) {
        let i = choose|i: int| 0 <= i < n + 1 && #[trigger] s[i].0 == id;
        assert(s[i].0 == id);
    }
    if s[n].0 == id {
        assert(s[n].0 == id);
    }
}

proof fn lemma_repeats_step<Id, E>(s: Seq<(Id, E)>, n: int, id: Id)
    requires
        0 <= n < s.len(),
    ensures
        repeats_in(s, n + 1, id) <==> repeats_in(s, n, id) || (s[n].0 == id && occurs_in(
            s,
            n,
            id,
        )),
{
    if repeats_in(s, n + 1, id) && !repeats_in(s, n, id) {
        let (i, j) = choose|i: int, j: int|
            0 <= i < j < n + 1 && #[trigger] s[i].0 == id && #[trigger] s[j].0 == id;
        assert(j == n);
        assert(s[i].0 == id);
    }
    if s[n].0 == id && occurs_in(s, n, id) {
        let i = choose|i: int| 0 <= i < n && #[trigger] s[i].0 == id;
        assert(s[i].0 == id && s[n].0 == id);
    }
    if repeats_in(s, n, id) {
        let (i, j) = choose|i: int, j: int|
            0 <= i < j < n && #[trigger] s[i].0 == id && #[trigger] s[j].0 == id;
        assert(s[i].0 == id && s[j].0 == id);
    }
}

proof fn lemma_unique_entry<Id, E>(s: Seq<(Id, E)>, k: int, id: Id)
    requires
        0 <= k < s.len(),
        s[k].0 == id,
        !repeats_in(s, s.len() as int, id),
    ensures
        entry_for(s, id) == s[k].1,
{
    assert(s[k].0 == id);
    let i = choose|i: int| 0 <= i < s.len() && #[trigger] s[i].0 == id;
    if i < k {
        assert(s[i].0 == id && s[k].0 == id);
    } else if k < i {
        assert(s[k].0 == id && s[i].0 == id);
    }
}

proof fn lemma_repeat_occurs<Id, E>(s: Seq<(Id, E)>, id: Id)
    requires
        repeats_in(s, s.len() as int, id),
    ensures
        occurs_in(s, s.len() as int, id),
{
    let (i, j) = choose|i: int, j: int|
        0 <= i < j < s.len() && #[trigger] s[i].0 == id && #[trigger] s[j].0 == id;
    assert(s[i].0 == id);
}

/// The index of the first entry of each id of `entries`, and the ids that
/// occur more than once.
fn index_by_id<Id: Eq + Hash + Clone, E>(entries: &Vec<(Id, E)>) -> (index: (
    HashMap<Id, usize>,
    HashSet<Id>,
))
    ensures
        obeys_key_model::<Id>() && clones_exact::<Id>() ==> {
            &&& forall|id: Id| #[trigger]
                index.0@.contains_key(id) <==> occurs_in(entries@, entries@.len() as int, id)
            &&& forall|id: Id| #[trigger]
                index.0@.contains_key(id) ==> index.0@[id] < entries@.len() && entries@[index.0@[id] as int].0
                    == id
            &&& index.1@ == repeated_ids(entries@)
        },
{
    let ghost model = obeys_key_model::<Id>() && clones_exact::<Id>();
    let mut first: HashMap<Id, usize> = HashMap::new();
    let mut repeated: HashSet<Id> = HashSet::new();
    let mut n: usize = 0;
    while n < entries.len()
        invariant
            n <= entries@.len(),
            model == (obeys_key_model::<Id>() && clones_exact::<Id>()),
            model ==> forall|id: Id| #[trigger]
                first@.contains_key(id) <==> occurs_in(entries@, n as int, id),
            model ==> forall|id: Id| #[trigger]
                first@.contains_key(id) ==> first@[id] < n && entries@[first@[id] as int].0 == id,
            model ==> forall|id: Id| #[trigger]
                repeated@.contains(id) <==> repeats_in(entries@, n as int, id),
        decreases entries@.len() - n,
    {
        let id = entries[n].0.clone();
        let ghost key = id;
        proof {
            if model {
                assert(cloned(entries@[n as int].0, id));
            }
        }
        let seen = first.contains_key(&id);
        let ghost before_first = first@;
        let ghost before_repeated = repeated@;
        if seen {
            repeated.insert(id);
        } else {
            first.insert(id, n);
        }
        proof {
            if model {
                assert(key == entries@[n as int].0);
                assert forall|x: Id| occurs_in(entries@, n + 1, x) implies #[trigger]
                    first@.contains_key(x) by {
                    lemma_occurs_step(entries@, n as int, x);
                }
                assert forall|x: Id| #[trigger] first@.contains_key(x) implies occurs_in(
                    entries@,
                    n + 1,
                    x,
                ) by {
                    lemma_occurs_step(entries@, n as int, x);
                }
                assert forall|x: Id| #[trigger] first@.contains_key(x) implies first@[x] < n + 1
                    && entries@[first@[x] as int].0 == x by {
                    if x != key {
                        assert(before_first.contains_key(x) == first@.contains_key(x));
                    }
                }
                assert forall|x: Id| #[trigger]
                    repeated@.contains(x) <==> repeats_in(entries@, n + 1, x) by {
                    lemma_repeats_step(entries@, n as int, x);
                    lemma_occurs_step(entries@, n as int, x);
                }
            }
        }
        n = n + 1;
    }
    proof {
        if model {
            assert(repeated@ =~= repeated_ids(entries@));
        }
    }
    (first, repeated)
}

/// The keyed diff of two versions of a list of `(id, entry)` pairs: the
/// ids only in `new` are added, those only in `old` are removed, and those
/// in both whose entries differ, or that repeat in either version, are
/// modified. The sets are exact when `Id` hashes and clones faithfully and
/// `E`'s `==` is its spec equality.
pub fn keyed_delta<Id: Eq + Hash + Clone, E: PartialEq>(
    old: &Vec<(Id, E)>,
    new: &Vec<(Id, E)>,
) -> (delta: ConfigDelta<Id>)
    ensures
        obeys_key_model::<Id>() && clones_exact::<Id>() && E::obeys_eq_spec() ==> {
            &&& delta.added@ == ids_of(new@) - ids_of(old@)
            &&& delta.removed@ == ids_of(old@) - ids_of(new@)
            &&& delta.modified@ == keyed_modified(old@, new@)
        },
{
    let ghost model = obeys_key_model::<Id>() && clones_exact::<Id>() && E::obeys_eq_spec();
    let (old_first, old_repeated) = index_by_id(old);
    let (new_first, new_repeated) = index_by_id(new);
    let mut added: HashSet<Id> = HashSet::new();
    let mut removed: HashSet<Id> = HashSet::new();
    let mut modified: HashSet<Id> = HashSet::new();
    let mut j: usize = 0;
    while j < new.len()
        invariant
            j <= new@.len(),
            model == (obeys_key_model::<Id>() && clones_exact::<Id>() && E::obeys_eq_spec()),
            model ==> forall|id: Id| #[trigger]
                old_first@.contains_key(id) <==> occurs_in(old@, old@.len() as int, id),
            model ==> forall|id: Id| #[trigger]
                old_first@.contains_key(id) ==> old_first@[id] < old@.len() && old@[old_first@[id] as int].0
                    == id,
            model ==> old_repeated@ == repeated_ids(old@),
            model ==> new_repeated@ == repeated_ids(new@),
            model ==> forall|id: Id| #[trigger]
                added@.contains(id) <==> occurs_in(new@, j as int, id) && !ids_of(old@).contains(
                    id,
                ),
            model ==> forall|id: Id| #[trigger]
                modified@.contains(id) <==> occurs_in(new@, j as int, id) && (repeated_ids(
                    new@,
                ).contains(id) || (ids_of(old@).contains(id) && (repeated_ids(old@).contains(id)
                    || !entry_for(old@, id).eq_spec(&entry_for(new@, id))))),
            removed@ == Set::<Id>::empty(),
        decreases new@.len() - j,
    {
        let key = new[j].0.clone();
        let ghost id = key;
        proof {
            if model {
                assert(cloned(new@[j as int].0, key));
            }
        }
        match old_first.get(&key) {
            None => {
                if new_repeated.contains(&key) {
                    let copy = key.clone();
                    proof {
                        if model {
                            assert(cloned(id, copy));
                        }
                    }
                    modified.insert(copy);
                }
                added.insert(key);
            },
            Some(k) => {
                let k = *k;
                let differs = if k < old.len() {
                    !(old[k].1 == new[j].1)
                } else {
                    true
                };
                if new_repeated.contains(&key) || old_repeated.contains(&key) || differs {
                    modified.insert(key);
                }
            },
        }
        proof {
            if model {
                assert forall|x: Id| #[trigger]
                    added@.contains(x) <==> occurs_in(new@, j + 1, x) && !ids_of(old@).contains(x) by {
                    lemma_occurs_step(new@, j as int, x);
                }
                assert forall|x: Id| #[trigger]
                    modified@.contains(x) <==> occurs_in(new@, j + 1, x) && (repeated_ids(
                        new@,
                    ).contains(x) || (ids_of(old@).contains(x) && (repeated_ids(old@).contains(x)
                        || !entry_for(old@, x).eq_spec(&entry_for(new@, x))))) by {
                    lemma_occurs_step(new@, j as int, x);
                    if x == id && ids_of(old@).contains(x) && !repeated_ids(old@).contains(x)
                        && !repeated_ids(new@).contains(x) {
                        let k = old_first@[x];
                        lemma_unique_entry(old@, k as int, x);
                        lemma_unique_entry(new@, j as int, x);
                    }
                }
            }
        }
        j = j + 1;
    }
    let mut k: usize = 0;
    while k < old.len()
        invariant
            k <= old@.len(),
            j == new@.len(),
            model == (obeys_key_model::<Id>() && clones_exact::<Id>() && E::obeys_eq_spec()),
            model ==> forall|id: Id| #[trigger]
                new_first@.contains_key(id) <==> occurs_in(new@, new@.len() as int, id),
            model ==> old_repeated@ == repeated_ids(old@),
            model ==> forall|id: Id| #[trigger]
                added@.contains(id) <==> occurs_in(new@, j as int, id) && !ids_of(old@).contains(
                    id,
                ),
            model ==> forall|id: Id| #[trigger]
                removed@.contains(id) <==> occurs_in(old@, k as int, id) && !ids_of(new@).contains(
                    id,
                ),
            model ==> forall|id: Id| #[trigger]
                modified@.contains(id) <==> (occurs_in(new@, j as int, id) && (repeated_ids(
                    new@,
                ).contains(id) || (ids_of(old@).contains(id) && (repeated_ids(old@).contains(id)
                    || !entry_for(old@, id).eq_spec(&entry_for(new@, id)))))) || (occurs_in(
                    old@,
                    k as int,
                    id,
                ) && repeated_ids(old@).contains(id)),
        decreases old@.len() - k,
    {
        let key = old[k].0.clone();
        proof {
            if model {
                assert(cloned(old@[k as int].0, key));
            }
        }
        if !new_first.contains_key(&key) {
            let copy = key.clone();
            proof {
                if model {
                    assert(cloned(key, copy));
                }
            }
            removed.insert(copy);
        }
        if old_repeated.contains(&key) {
            modified.insert(key);
        }
        proof {
            if model {
                assert forall|x: Id| #[trigger]
                    removed@.contains(x) <==> occurs_in(old@, k + 1, x) && !ids_of(new@).contains(x) by {
                    lemma_occurs_step(old@, k as int, x);
                }
                assert forall|x: Id| #[trigger]
                    modified@.contains(x) <==> (occurs_in(new@, j as int, x) && (repeated_ids(
                        new@,
                    ).contains(x) || (ids_of(old@).contains(x) && (repeated_ids(old@).contains(x)
                        || !entry_for(old@, x).eq_spec(&entry_for(new@, x)))))) || (occurs_in(
                        old@,
                        k + 1,
                        x,
                    ) && repeated_ids(old@).contains(x)) by {
                    lemma_occurs_step(old@, k as int, x);
                }
            }
        }
        k = k + 1;
    }
    proof {
        if model {
            assert(added@ =~= ids_of(new@) - ids_of(old@));
            assert(removed@ =~= ids_of(old@) - ids_of(new@));
            assert forall|x: Id| #[trigger] modified@.contains(x) <==> keyed_modified(
                old@,
                new@,
            ).contains(x) by {
                if repeated_ids(new@).contains(x) {
                    lemma_repeat_occurs(new@, x);
                }
                if repeated_ids(old@).contains(x) {
                    lemma_repeat_occurs(old@, x);
                }
            }
            assert(modified@ =~= keyed_modified(old@, new@));
        }
    }
    ConfigDelta { added, removed, modified }
}

} // verus!
