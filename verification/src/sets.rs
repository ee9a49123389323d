//! Small helpers over hash-based collections: moving their contents into
//! sequences and merging sets.

use std::collections::{HashMap, HashSet};
use vstd::prelude::*;
use vstd::std_specs::hash::obeys_key_model;
use vstd::std_specs::iter::IteratorSpec;

verus! {

/// Cloning a value of type `T` yields an equal value.
pub open spec fn clones_exact<T: Clone>() -> bool {
    forall|a: T, b: T| #[trigger] cloned(a, b) ==> a == b
}

/// Advance an iterator by one step.
fn advance<I: Iterator>(it: &mut I) -> (next: Option<I::Item>)
    ensures
        (*final(it)).obeys_prophetic_iter_laws() == (*old(it)).obeys_prophetic_iter_laws(),
        (*final(it)).obeys_prophetic_iter_laws() ==> if (*old(it)).remaining().len() > 0 {
            &&& (*final(it)).remaining() == (*old(it)).remaining().drop_first()
            &&& next == Some((*old(it)).remaining()[0])
        } else {
            next is None
        },
{
    it.next()
}

/// The elements of `set` as a vector, each exactly once, in the set's
/// iteration order.
pub fn set_to_vec(set: &HashSet<u64>) -> (items: Vec<u64>)
    ensures
        items@.to_set() == set@,
        items@.no_duplicates(),
        items@.len() == set@.len(),
{
    let mut items: Vec<u64> = Vec::new();
    for x in it: set.iter()
        invariant
            items@ == it.seq().take(it.index() as int).map_values(|r: &u64| *r),
    {
        items.push(*x);
        proof {
            assert(it.seq().take(it.index() as int + 1).map_values(|r: &u64| *r) =~= items@);
        }
    }
    proof {
        let s = vstd::std_specs::hash::spec_hash_keys_iter(set).remaining();
        assert(items@ =~= s.unref());
        assert(s.unref() =~= s.map_values(|r: &u64| *r));
    }
    items
}

/// The keys of `map`, each once.
pub fn keys_of<V>(map: &HashMap<u64, V>) -> (keys: Vec<u64>)
    ensures
        keys@.to_set() == map@.dom(),
        keys@.no_duplicates(),
{
    let mut keys: Vec<u64> = Vec::new();
    for k in it: map.keys()
        invariant
            keys@ == it.seq().take(it.index() as int).map_values(|r: &u64| *r),
    {
        keys.push(*k);
        proof {
            assert(it.seq().take(it.index() as int + 1).map_values(|r: &u64| *r) =~= keys@);
        }
    }
    proof {
        let s = vstd::std_specs::hash::spec_keys_iter(map).remaining();
        assert(keys@ =~= s.unref());
        assert(s.unref() =~= s.map_values(|r: &u64| *r));
    }
    keys
}

/// Insert a clone of every element of `src` into `dst`.
pub fn union_into<Id: Eq + std::hash::Hash + Clone>(src: &HashSet<Id>, dst: &mut HashSet<Id>)
    ensures
        obeys_key_model::<Id>() && clones_exact::<Id>() ==> final(dst)@ == old(dst)@ + src@,
{
    let n = src.len();
    let mut it = src.iter();
    let ghost all = it.remaining();
    let mut i: usize = 0;
    while i < n
        invariant
            i <= n,
            obeys_key_model::<Id>() ==> {
                &&& all == vstd::std_specs::hash::spec_hash_keys_iter(src).remaining()
                &&& n == all.len()
                &&& it.obeys_prophetic_iter_laws()
                &&& it.remaining() == all.skip(i as int)
            },
            obeys_key_model::<Id>() && clones_exact::<Id>() ==> dst@ == old(dst)@ + all.take(
                i as int,
            ).unref().to_set(),
        decreases n - i,
    {
        let next = advance(&mut it);
        if let Some(x) = next {
            let c = x.clone();
            dst.insert(c);
            proof {
                if obeys_key_model::<Id>() && clones_exact::<Id>() {
                    assert(cloned(*x, c));
                    assert(all.take(i + 1).unref() =~= all.take(i as int).unref().push(*x));
                    all.take(i as int).unref().lemma_push_to_set_commute(*x);
                }
            }
        }
        proof {
            if obeys_key_model::<Id>() {
                assert(all.skip(i as int).drop_first() =~= all.skip(i + 1));
            }
        }
        i = i + 1;
    }
    proof {
        if obeys_key_model::<Id>() && clones_exact::<Id>() {
            assert(all.take(n as int) =~= all);
        }
    }
}

} // verus!
