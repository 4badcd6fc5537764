[package]
name = "validator_store"
version = "0.1.0"
edition = "2021"
publish = false

[dependencies]
anyhow = "1"
chrono = { version = "0.4", features = ["serde"] }
env_logger = "0.10"
lazy_static = "1.4"
log = "0.4"
postgres = { version = "0.19", features = ["with-chrono-0_4", "with-serde_json-1"] }
prometheus = "0.13"
rust_decimal = { version = "1", features = ["db-postgres", "db-tokio-postgres"] }
serde = { version = "1", features = ["derive"] }
serde_json = "1"
serde_yaml = "0.9"
structopt = "0.3"
tokio = { version = "1", features = ["full"] }
tokio-postgres = { version = "0.7", features = ["with-chrono-0_4", "with-serde_json-1"] }
utoipa = "3"
warp = { version = "0.3", default-features = false }
