[package]
name = "sim_ledger"
version = "0.1.0"
edition = "2021"
publish = false

[dependencies]
csv = "=1.4.0"
serde = { version = "=1.0.229", features = ["derive"] }
serde_json = "=1.0.154"
sim-codec-sql = "=0.2.0"
sim-kernel = "=0.4.0"
sim-platform-sqlite = "*"
sim-relation-core = "=0.2.0"
sim-relation-migrate = "=0.2.0"
sim-relation-plan = "=0.2.0"
sim-relation-schema = "=0.2.0"
sim-relation-site = "*"
sim-storage-port = "*"
tempfile = "*"
time = "=0.3.55"
toml = "=1.1.8"
zip = { version = "=9.2.2", default-features = false, features = ["deflate"] }
