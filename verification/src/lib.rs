//! Verified core of a hot-reload framework for configuration assets.

pub mod binding;
mod clock;
pub mod debounce;
pub mod source;
pub mod dependency;
pub mod diff;
pub mod event;
pub mod keyed;
pub mod laws;
pub mod loader;
pub mod metrics;
pub mod pipeline;
pub mod reflect;
pub mod refresh;
pub mod registry;
pub mod sets;
pub mod tracking;
pub mod view;
pub mod watcher;

pub use binding::HandleEntityCache;
pub use source::{ConfigAsset, HmrAsset, HmrSource, LastSnapshot};
pub use metrics::HmrMetrics;
pub use diff::{ConfigDiff, SimpleConfigDiff};
pub use debounce::RefreshDebouncer;
pub use dependency::{CascadeQueue, CascadeRequest, DependencyEdge, DependencyGraph};
pub use event::{AssetEvent, UntypedKey};
pub use loader::{ConfigFormat, ConfigLoader, ConfigLoaderError};
pub use refresh::{ConfigDelta, ConfigRefresh, ConfigReloadFailed, ConfigRemoved, DiffKind, RefreshCause};
pub use registry::ConfigPathRegistry;
pub use watcher::{AssetBindCache, AssetChanged, AssetRemoved};
pub use reflect::{extract_reflected_handles, ReflectHandleExtraction, ReflectedValue};
pub use tracking::{merge_target_entities, ReflectHandleCache, ReflectHandleTrackingMetrics};
pub use view::{ActiveConfigView, AppliedRevision, AssetRevision, AssetRevisionEntry, AssetRevisionStatus, ConfigViewSync};
