[package]
name = "rollup_tui"
version = "0.1.0"
edition = "2021"
publish = false

[dependencies]
chrono = { version = "0.4.45", default-features = false, features = ["now"] }
alloy-provider = { version = "2.5.0", default-features = false, features = ["reqwest"] }
alloy-rpc-types = { version = "2.5.0", default-features = false, features = ["eth"] }
tokio = { version = "1.53.2", features = ["rt-multi-thread", "sync", "time"] }
futures = { version = "0.3.34", default-features = false, features = ["std"] }
eyre = "0.6.14"
serde = { version = "1.0.229", features = ["derive"] }
serde_json = "1.0.151"
