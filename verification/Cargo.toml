[package]
name = "rust_control_plane"
version = "0.1.0"
edition = "2021"
publish = false

[dependencies]
sha2 = "0.10"
slab = "0.4"
tokio = { version = "1", features = ["rt", "sync", "macros", "time"] }

[dev-dependencies]
