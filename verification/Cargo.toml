[package]
name = "autoreply"
version = "0.1.0"
edition = "2021"
publish = false

[dependencies]
anyhow = "*"
rand = "0.8"
sqlx = { version = "*", default-features = false, features = ["postgres", "runtime-tokio"] }
twilight-model = "*"
twilight-util = { version = "*", features = ["builder"] }
