[package]
name = "tracked_storage"
version = "0.1.0"
edition = "2021"
publish = false

[dependencies]
hibitset = { version = "*", default-features = false }
