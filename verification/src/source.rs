//! Config sources: the trait that extracts a config from an asset, the
//! wrapping asset type, and the per-type snapshot store.

use crate::diff::ConfigDiff;
use std::collections::HashMap;
use std::marker::PhantomData;
use vstd::prelude::*;

verus! {

/// Extracts the config data (which is diffed) from an asset.
///
/// In wrapping mode `ConfigAsset<T>` implements it with `Config = T`; in
/// direct mode a user asset implements it, usually with `Config = Self`.
pub trait HmrSource {
    /// Config data type.
    type Config: ConfigDiff + Clone;

    /// The config carried by this asset.
    fn config(&self) -> &Self::Config;

    /// Source path of the asset (relative to the asset root), empty when
    /// unknown.
    fn source_path(&self) -> (path: &str)
        default_ensures
            path@ == Seq::<char>::empty(),
    {
        proof {
            reveal_strlit("");
        }
        ""
    }
}

/// A config type that can be hot-reloaded wrapped in [`ConfigAsset`]:
/// anything that can be diffed and cloned.
pub trait HmrAsset: ConfigDiff + Clone {
}

impl<T: ConfigDiff + Clone> HmrAsset for T {
}

/// Wraps a parsed config `T` together with its source path.
pub struct ConfigAsset<T> {
    /// The parsed config payload.
    pub raw: T,
    /// Path the asset was read from (relative to the asset root).
    pub source_path: String,
}

impl<T: HmrAsset> HmrSource for ConfigAsset<T> {
    type Config = T;

    fn config(&self) -> (config: &T)
        ensures
            *config == self.raw,
    {
        &self.raw
    }

    fn source_path(&self) -> (path: &str)
        ensures
            path@ == self.source_path@,
    {
        self.source_path.as_str()
    }
}

/// Per-type snapshot of the last-seen config value for each asset key,
/// and the last-known source path of each asset.
pub struct LastSnapshot<A: HmrSource> {
    /// Asset key -> last-seen config value.
    pub map: HashMap<u128, A::Config>,
    /// Asset key -> last-known source path.
    pub source_paths: HashMap<u128, String>,
    /// Ties the store to one asset type.
    pub marker: PhantomData<A>,
}

impl<A: HmrSource> LastSnapshot<A> {
    /// Asset key -> recorded source path, as views.
    pub open spec fn paths(&self) -> Map<u128, Seq<char>> {
        self.source_paths@.map_values(|s: String| s@)
    }

    /// An empty store.
    pub fn new() -> (snapshots: Self)
        ensures
            snapshots.map@ == Map::<u128, A::Config>::empty(),
            snapshots.paths() == Map::<u128, Seq<char>>::empty(),
    {
        let snapshots = LastSnapshot {
            map: HashMap::new(),
            source_paths: HashMap::new(),
            marker: PhantomData,
        };
        assert(snapshots.paths() =~= Map::empty());
        snapshots
    }

    /// Record a copy of `config` as the snapshot of `id` before its first
    /// load event arrives, so that event dispatches nothing; the source path
    /// is recorded when one is given.
    pub fn prime(&mut self, id: u128, config: &A::Config, path: &str)
        ensures
            final(self).map@.contains_key(id),
            cloned(*config, final(self).map@[id]),
            final(self).map@.remove(id) == old(self).map@.remove(id),
            final(self).paths() == (if path@.len() == 0 {
                old(self).paths()
            } else {
                old(self).paths().insert(id, path@)
            }),
    {
        let copy = config.clone();
        self.map.insert(id, copy);
        assert(self.map@.remove(id) =~= old(self).map@.remove(id));
        if !path.is_empty() {
            self.source_paths.insert(id, path.to_string());
            assert(self.paths() =~= old(self).paths().insert(id, path@));
        } else {
            assert(self.paths() =~= old(self).paths());
        }
    }
}

impl<A: HmrSource> Default for LastSnapshot<A> {
    fn default() -> (snapshots: Self)
        ensures
            snapshots.map@ == Map::<u128, A::Config>::empty(),
            snapshots.paths() == Map::<u128, Seq<char>>::empty(),
    {
        Self::new()
    }
}

} // verus!
