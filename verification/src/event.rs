//! Asset lifecycle events, with asset ids held as plain keys.

use vstd::prelude::*;

verus! {

/// What happened to one asset, as reported by the asset store.
#[derive(Clone, Copy, Debug, PartialEq, Eq, Structural)]
pub enum AssetEvent {
    /// The asset was added for the first time.
    Added { id: u128 },
    /// An existing asset was replaced or mutated.
    Modified { id: u128 },
    /// The asset was removed from the store.
    Removed { id: u128 },
    /// The last strong handle to the asset was dropped.
    Unused { id: u128 },
    /// The asset and all of its dependencies finished loading.
    LoadedWithDependencies { id: u128 },
}

/// An asset id that also names its asset type: the type's tag and the
/// asset's key within that type.
#[derive(Clone, Copy, Debug, PartialEq, Eq, Hash, Structural)]
pub struct UntypedKey {
    /// Tag of the asset's type.
    pub type_tag: u64,
    /// Key of the asset within its type.
    pub key: u128,
}

} // verus!
