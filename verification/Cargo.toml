[package]
name = "patina-core"
version = "0.1.0"
edition = "2021"
publish = false

[dependencies]
blake3 = { version = "1", features = ["pure"] }
camino = "1"
dunce = "1"
fs-err = "3"
fs2 = "0.4"
ignore = "0.4"
jiff = "0.2"
postcard = { version = "1", features = ["use-std"] }
serde = { version = "1", features = ["derive"] }
thiserror = "2"
tokio = { version = "1", features = ["process", "rt"] }
toml = "*"
toml_edit = "*"
tracing = "0.1"
unicode-normalization = "0.1"

[dev-dependencies]
tempfile = "3"
