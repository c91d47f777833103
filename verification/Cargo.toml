[package]
name = "initvec"
version = "0.1.0"
edition = "2021"
publish = false

[dependencies]
axum = "0.5"
bb8-redis = "0.13"
config = { version = "0.13", default-features = false }
derive-new = "0.5"
fastrand = "1"
fixedbitset = "0.5"
futures = "0.3"
futures-util = "0.3"
itertools = "0.10"
log = "0.4"
maplit = "1"
petgraph = "0.6"
pretty_env_logger = "0.4"
prost = "0.11"
redis = { version = "0.23", features = ["aio", "tokio-comp", "streams"] }
redis-graph = { version = "0.4", features = ["tokio-comp"] }
serde = { version = "1", features = ["derive"] }
serde_json = "1"
tmq = "0.3"
tokio = { version = "1", features = ["full"] }
tracing = "0.1"
tracing-subscriber = { version = "0.3", features = ["env-filter"] }
