[package]
name = "meridian_core"
version = "0.1.0"
edition = "2021"
publish = false

[dependencies]
serde = { version = "1", features = ["derive"] }
thiserror = "2"
alloy = { version = "*", default-features = false }
