[package]
name = "frost-core"
version = "0.1.0"
edition = "2021"
publish = false

[dev-dependencies]
k256 = { version = "0.13", default-features = false, features = ["arithmetic", "expose-field", "hash2curve"] }
rand = "0.8"
sha2 = { version = "0.10", default-features = false }
