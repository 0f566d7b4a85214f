[package]
name = "ttx_runtime"
version = "0.1.0"
edition = "2021"
publish = false

[dependencies]
defmt-decoder = "1"
goblin = "*"
luwen = "*"
postcard = { version = "1.1", features = ["alloc"] }
serde = { version = "1", features = ["derive"] }
serde_json = "1"
tempfile = "3"
tracing = "0.1"
tracing-subscriber = { version = "0.3", features = ["env-filter"] }
uuid = { version = "1", features = ["v4"] }
