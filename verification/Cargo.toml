[package]
name = "kauthgate"
version = "0.1.0"
edition = "2021"
publish = false

[dependencies]
anyhow = "1"
async-trait = "0.1"
clap = { version = "4", features = ["derive"] }
config = { version = "*", default-features = false, features = ["yaml"] }
pingora = { version = "*", features = ["proxy"] }
pingora-prometheus = "*"
serde = { version = "1", features = ["derive"] }
thiserror = "*"
tracing = "0.1"
