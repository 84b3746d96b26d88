[package]
name = "backup_extract"
version = "0.1.0"
edition = "2021"
publish = false

[dependencies]
rusqlite = { version = "*", features = ["bundled"] }
chrono = "0.4"
clap = { version = "*", features = ["derive"] }
