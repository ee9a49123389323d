[package]
name = "bevy_assets_hmr"
version = "0.1.0"
edition = "2021"
publish = false

[dependencies]
bevy = { version = "=0.19.1", default-features = false, features = ["std", "bevy_asset", "bevy_log"] }
disqualified = "=1.1.0"
ron = "=0.12.3"
serde = { version = "=1.0.229", features = ["derive"] }
serde_json = "=1.0.154"
thiserror = "=2.0.21"
