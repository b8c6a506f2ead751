[package]
name = "bifrost_core"
version = "0.1.0"
edition = "2021"
publish = false

[dependencies]
rand = "0.9"
rand_distr = "0.5"
ndarray = "*"
ndarray-rand = "*"
csv = "1"
serde = { version = "1", features = ["derive"] }
serde_json = "1"
rayon = "1"
tokio = { version = "1", features = ["macros", "rt-multi-thread", "time"] }
tokio-stream = "0.1"
tonic = "*"
tonic-prost = "*"
prost = "*"
