[package]
name = "cbus"
version = "0.1.0"
edition = "2021"
publish = false

[dependencies]
idmint = { version = "=0.2.2", features = ["stack"] }
roxmltree = "=0.21.2"
thiserror = "=2.0.21"
indexmap = "=2.14.2"
quote = "=1.0.47"
proc-macro2 = "=1.0.107"
syn = { version = "=2.0.119", features = ["full", "extra-traits"] }
proc-macro-crate = "=3.5.0"
