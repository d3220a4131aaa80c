[package]
name = "taskstore"
version = "0.1.0"
edition = "2021"
publish = false

[dependencies]
rusqlite = { version = "*", default-features = false, features = ["bundled"] }
chrono = "*"
