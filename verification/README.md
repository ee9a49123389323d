# bevy_assets_hmr

Hot reload for configuration assets in Bevy: when a config file changes,
the new version is diffed against the last one and subscribers receive a
refresh naming the ids that were added, removed or modified, together with
the entities bound to the asset.

The crate is a Verus library; everything under `src/` is verified.

- `binding`, `watcher` — entity/asset binding caches (and the source paths
  of watched assets), with drift correction.
- `debounce` — per-asset debouncing of add/modify/remove events; the last
  event in a window wins.
- `pipeline` — what a due refresh, a due removal, a load failure and a
  dependency cascade do to the snapshot store, the revision registry and the
  metrics, and the notice each one produces.
- `diff`, `keyed`, `refresh` — the diff trait, the whole-value diff of a
  single-object config, the keyed diff of a list of entries by id (a
  repeated id is reported as modified), and the notices.
- `dependency` — the parent/child dependency graph and the cascade queue.
- `view` — per-asset revisions and the routing of syncs to derived views.
- `reflect`, `tracking` — handle extraction from reflected values and the
  three-level index of reflected handles.
- `loader` — `.ron` / `.json` decoding chosen by file extension.
- `laws` — properties that span several operations.

`app/` holds the Bevy side: the plugin, components, resources, the systems
that feed Bevy events into the library and write its notices out as
messages, the asset loader and the reflection scanner.

## What is not here

- The `#[derive(ConfigDiff)]` and `#[derive(HmrAutoWatch)]` procedural
  macros are not provided; a procedural macro cannot live in this library.
  A list-of-entries config implements `ConfigDiff` by hand with
  `keyed::keyed_delta`, which computes what the derive generated; an enum or
  single-object config uses `SimpleConfigDiff` or `diff::whole_value_delta`.
- With the auto-watch derive go the `HmrAutoWatch` trait and its plugin and
  `AssetBindTemplate`; entities are bound through `AssetBindCache` and the
  registration functions in `app/`.
- `ConfigViewSync::asset` and `AssetChanged::asset` (typed Bevy handles) are
  not fields of the library's types, which key assets by plain ids; `app/`
  converts between the two.
- The per-type clone-size estimator (`set_size_estimator`) lives in `app/`
  as `register_config_size_estimator`; the library takes its estimate as a
  plain `Option<usize>`.
