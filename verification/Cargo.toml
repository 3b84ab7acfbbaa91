[package]
name = "admission"
version = "0.1.0"
edition = "2021"
publish = false

[dependencies]
ring = "=0.17.14"
warp = { version = "=0.4.3", features = ["server"] }
tokio = { version = "=1.53.2", features = ["macros", "rt-multi-thread", "sync"] }
diesel = { version = "=2.3.14", features = ["sqlite", "r2d2"] }
serde = { version = "=1.0.229", features = ["derive"] }
uuid = { version = "=1.27.0", features = ["v4"] }
config = "=0.15.27"
anyhow = "=1.0.104"
