[package]
name = "editorconfig_store"
version = "0.1.0"
edition = "2021"
publish = false

[dependencies]
anyhow = "1"
ec4rs = "1.1"
futures = "0.3"
log = "0.4"
smallvec = { version = "1", features = ["union"] }
