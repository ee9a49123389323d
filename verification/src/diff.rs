//! Diff trait implemented by config types, and the whole-value diff for
//! single-object configs.

use std::collections::HashSet;
use vstd::prelude::*;
use vstd::std_specs::cmp::PartialEqSpec;
use vstd::std_specs::hash::obeys_key_model;

verus! {

/// Implemented by config types to support diff-based refresh.
///
/// `diff` returns three id sets: `(added, removed, modified)`:
/// - `added`: ids present in `new` but not in `old`
/// - `removed`: ids present in `old` but not in `new`
/// - `modified`: ids present in both whose entries differ
pub trait ConfigDiff: Sized {
    /// Logical id type of the config's entries.
    type Id: Eq + std::hash::Hash + Clone;

    /// Compare two versions of this config and return the id delta.
    fn diff(old: &Self, new: &Self) -> (HashSet<Self::Id>, HashSet<Self::Id>, HashSet<Self::Id>);

    /// A cheap estimate of the bytes a clone of this value owns, if known.
    fn estimated_size_bytes(&self) -> (estimate: Option<usize>)
        default_ensures
            estimate is None,
    {
        None
    }
}

/// Simplified diff for single-object configs: the whole value is one entry
/// whose id is `diff_id()`. Any type with `PartialEq` gets [`ConfigDiff`].
pub trait SimpleConfigDiff: PartialEq + Sized {
    /// The id reported as modified when the value changes; by default the
    /// full name of the type.
    fn diff_id() -> &'static str {
        full_type_label::<Self>()
    }
}

/// The full name of `T`, as `disqualified::ShortName::of::<T>()` holds it
/// before shortening (the name the compiler gives the type). Nothing is
/// stated of the text: it is the compiler's choice.
#[verifier::external_body]
fn full_type_label<T>() -> &'static str {
    disqualified::ShortName::of::<T>().original()
}

/// The delta of a single-object config: nothing added or removed, and the
/// single id modified exactly when the two values differ.
pub fn whole_value_delta(changed: bool, id: &str) -> (delta: (
    HashSet<String>,
    HashSet<String>,
    HashSet<String>,
))
    ensures
        delta.0@ == Set::<String>::empty(),
        delta.1@ == Set::<String>::empty(),
        !changed ==> delta.2@ == Set::<String>::empty(),
        changed && obeys_key_model::<String>() ==> (exists|s: String| s@ == id@ && delta.2@ == set![s]),
{
    let added: HashSet<String> = HashSet::new();
    let removed: HashSet<String> = HashSet::new();
    let mut modified: HashSet<String> = HashSet::new();
    if changed {
        let name = id.to_string();
        modified.insert(name);
        proof {
            if obeys_key_model::<String>() {
                assert(modified@ =~= set![name]);
            }
        }
    }
    (added, removed, modified)
}

impl<T: SimpleConfigDiff> ConfigDiff for T {
    type Id = String;

    fn diff(old: &Self, new: &Self) -> (delta: (HashSet<String>, HashSet<String>, HashSet<String>))
        ensures
            delta.0@ == Set::<String>::empty(),
            delta.1@ == Set::<String>::empty(),
            T::obeys_eq_spec() && old.eq_spec(new) ==> delta.2@ == Set::<String>::empty(),
            T::obeys_eq_spec() && !old.eq_spec(new) && obeys_key_model::<String>() ==> (exists|
                id: String,
                name: &'static str,
            | call_ensures(T::diff_id, (), name) && id@ == name@ && delta.2@ == set![id]),
    {
        whole_value_delta(old != new, T::diff_id())
    }
}

} // verus!
