[package]
name = "momo_core"
version = "0.1.0"
edition = "2021"
publish = false

[dependencies]
time = { version = "*", features = ["formatting"] }
serde = { version = "*", features = ["derive"] }
serde_json = "*"
toml = "*"
regex = "*"
rand = "*"
thiserror = "*"
sqlx = { version = "*", default-features = false, features = ["sqlite", "runtime-tokio"] }
reqwest = { version = "*", default-features = false, features = ["json"] }
tokio = { version = "*", features = ["rt", "time", "process", "fs", "sync"] }
