[package]
name = "bellow"
version = "0.1.0"
edition = "2021"
publish = false

[dependencies]
crossbeam-channel = "0.5"
serde = { version = "1", features = ["derive"] }
serde_json = "1"
thiserror = "1"
cpal = "0.15"
symphonia = { version = "0.5", features = ["all"] }
rubato = "0.12"
tokio = { version = "1", features = ["net", "io-util", "rt-multi-thread", "macros"] }
napi = "2"
napi-derive = "2"
lazy_static = "1"
