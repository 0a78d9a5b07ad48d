[package]
name = "drorm_migrate"
version = "0.1.0"
edition = "2021"
publish = false

[dependencies]
rorm-sql = { version = "=0.12.0", features = ["postgres"] }
rorm-declaration = "=0.6.0"
anyhow = "=1.0.104"
serde = { version = "=1.0.229", features = ["derive"] }
serde_json = "=1.0.151"
clap = { version = "=4.6.7", features = ["derive"] }
tokio = { version = "=1.53.2", features = ["rt", "macros"] }
