[package]
name = "vendace"
version = "1.0.0"
edition = "2021"
publish = false

[dependencies]
rayon = "1"
anyhow = "1"
lazy_static = "1"
tokio = { version = "1", features = ["rt-multi-thread", "macros"] }
