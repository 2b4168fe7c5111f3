[package]
name = "stats_alloc_map"
version = "0.1.0"
edition = "2021"
publish = false

[dependencies]
mio = { version = "*", features = ["os-poll", "net"] }

[dev-dependencies]
serde_json = "*"
