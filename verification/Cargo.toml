[package]
name = "asom_index"
version = "0.1.0"
edition = "2021"
publish = false

[dependencies]
serde_yml = "*"
serde = { version = "*", features = ["derive"] }
serde_json = "*"
notify = "*"
walkdir = "*"
pathdiff = "*"
chrono = "*"
sqlx = { version = "*", default-features = false, features = ["runtime-tokio", "sqlite"] }
tokio = { version = "*", features = ["rt-multi-thread", "macros", "sync", "time"] }
