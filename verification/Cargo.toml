[package]
name = "vortex_core"
version = "0.1.0"
edition = "2021"
publish = false

[dependencies]
fastlanes = "*"
object_store = { version = "*", default-features = false }
bytes = "*"
futures = "*"
async-once-cell = "*"
anyhow = "*"
