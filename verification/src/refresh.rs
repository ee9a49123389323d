//! Refresh messages and the id-level delta between two config versions.

use crate::diff::ConfigDiff;
use crate::event::UntypedKey;
use crate::sets::{clones_exact, union_into};
use std::collections::HashSet;
use std::marker::PhantomData;
use vstd::prelude::*;
use vstd::std_specs::hash::obeys_key_model;

verus! {

/// Structured id-level changes between two config versions.
#[derive(Debug, PartialEq, Eq)]
pub struct ConfigDelta<Id: Eq + std::hash::Hash> {
    /// Ids present in the new version only.
    pub added: HashSet<Id>,
    /// Ids present in the old version only.
    pub removed: HashSet<Id>,
    /// Ids present in both whose entries differ.
    pub modified: HashSet<Id>,
}

impl<Id: Eq + std::hash::Hash> Default for ConfigDelta<Id> {
    fn default() -> (delta: Self)
        ensures
            delta.added@ == Set::<Id>::empty(),
            delta.removed@ == Set::<Id>::empty(),
            delta.modified@ == Set::<Id>::empty(),
    {
        ConfigDelta { added: HashSet::new(), removed: HashSet::new(), modified: HashSet::new() }
    }
}

impl<Id: Eq + std::hash::Hash + Clone> ConfigDelta<Id> {
    /// Every id the delta mentions.
    pub open spec fn all_ids(&self) -> Set<Id> {
        self.added@ + self.removed@ + self.modified@
    }

    /// The union of all changed ids, for consumers that do not need to
    /// distinguish added, removed and modified entries.
    pub fn changed_ids(&self) -> (ids: HashSet<Id>)
        ensures
            obeys_key_model::<Id>() && clones_exact::<Id>() ==> ids@ == self.all_ids(),
    {
        let mut ids: HashSet<Id> = HashSet::new();
        union_into(&self.added, &mut ids);
        union_into(&self.removed, &mut ids);
        union_into(&self.modified, &mut ids);
        proof {
            if obeys_key_model::<Id>() && clones_exact::<Id>() {
                assert(ids@ =~= self.all_ids());
            }
        }
        ids
    }

    /// Whether no id changed.
    pub fn is_empty(&self) -> (empty: bool)
        ensures
            empty == (self.all_ids() == Set::<Id>::empty()),
    {
        let r = self.added.is_empty() && self.removed.is_empty() && self.modified.is_empty();
        proof {
            if r {
                assert(self.all_ids() =~= Set::<Id>::empty());
            } else if !self.added@.is_empty() {
                let x = self.added@.choose();
                assert(self.all_ids().contains(x));
            } else if !self.removed@.is_empty() {
                let x = self.removed@.choose();
                assert(self.all_ids().contains(x));
            } else {
                let x = self.modified@.choose();
                assert(self.all_ids().contains(x));
            }
        }
        r
    }
}

/// Why a [`ConfigRefresh`] was dispatched.
#[derive(Clone, Debug, PartialEq, Eq)]
pub enum RefreshCause {
    /// The asset's own content changed.
    Direct,
    /// One or more child assets changed or were removed; each triggering
    /// child appears once.
    Dependency { triggered_by: Vec<UntypedKey> },
    /// A subscriber explicitly requested a refresh.
    Manual,
    /// A previously failed source became valid again.
    Recovery,
}

/// Notice that a config of type `T` has been hot-reloaded.
pub struct ConfigRefresh<T: ConfigDiff> {
    /// Key of the config asset instance that changed.
    pub asset_id: u128,
    /// The freshly loaded config value.
    pub new_config: T,
    /// Entities bound to this asset, each once.
    pub target_entities: Vec<u64>,
    /// Ids that changed (added, removed or modified).
    pub changed_ids: HashSet<T::Id>,
    /// Added, removed and modified ids kept as separate sets.
    pub delta: ConfigDelta<T::Id>,
    /// Coarse diff categorization.
    pub diff_kind: DiffKind,
    /// Direct, dependency, manual or recovery refresh origin.
    pub cause: RefreshCause,
    /// Source path of the asset (relative to the asset root), or empty.
    pub source_path: String,
}

/// Notice that a config asset of config type `T` has been removed.
pub struct ConfigRemoved<T> {
    /// Key of the removed config asset instance.
    pub asset_id: u128,
    /// Entities bound to the asset when it was removed, each once.
    pub target_entities: Vec<u64>,
    /// Source path recorded before removal, or empty.
    pub source_path: String,
    /// Ties the notice to the config type.
    pub marker: PhantomData<T>,
}

/// Notice that loading or hot-reloading a config asset failed.
pub struct ConfigReloadFailed<T> {
    /// Key of the asset whose load failed.
    pub asset_id: u128,
    /// Source path of the asset.
    pub source_path: String,
    /// Description of the error.
    pub error: String,
    /// Entities still bound to the asset, each once.
    pub target_entities: Vec<u64>,
    /// Last valid config, if this was a failed reload rather than a first
    /// load.
    pub current_config: Option<T>,
}

/// Coarse categorization of a diff result.
#[derive(Clone, Copy, Debug, PartialEq, Eq, Structural)]
pub enum DiffKind {
    /// All changes are additions of new ids.
    Added,
    /// All changes are removals of existing ids.
    Removed,
    /// All changes are in-place modifications of existing ids.
    Modified,
    /// Mix of the above (also used when nothing changed).
    Mixed,
}

/// The kind that three set sizes describe.
pub open spec fn diff_kind_of(added: nat, removed: nat, modified: nat) -> DiffKind {
    if added > 0 && removed == 0 && modified == 0 {
        DiffKind::Added
    } else if added == 0 && removed > 0 && modified == 0 {
        DiffKind::Removed
    } else if added == 0 && removed == 0 && modified > 0 {
        DiffKind::Modified
    } else {
        DiffKind::Mixed
    }
}

impl DiffKind {
    /// Compute the `DiffKind` from the three id-set sizes.
    pub fn from_counts(added: usize, removed: usize, modified: usize) -> (kind: DiffKind)
        ensures
            kind == diff_kind_of(added as nat, removed as nat, modified as nat),
    {
        if added > 0 && removed == 0 && modified == 0 {
            DiffKind::Added
        } else if added == 0 && removed > 0 && modified == 0 {
            DiffKind::Removed
        } else if added == 0 && removed == 0 && modified > 0 {
            DiffKind::Modified
        } else {
            DiffKind::Mixed
        }
    }
}

} // verus!
