[package]
name = "territory"
version = "0.1.0"
edition = "2021"
publish = false

[dependencies]
futures-util = "=0.3.34"
rand = "=0.10.3"
serde = { version = "=1.0.229", features = ["derive"] }
serde_json = "=1.0.151"
tokio = { version = "=1.53.2", features = ["sync", "rt-multi-thread", "macros", "time"] }
warp = { version = "=0.4.3", features = ["server", "websocket"] }
