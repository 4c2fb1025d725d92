[package]
name = "pronoun_engine"
version = "0.1.0"
edition = "2021"
publish = false

[dependencies]
rand = "0.8"
serde = { version = "1", features = ["derive"] }
serde_json = "1"
once_cell = "1"
tokio = { version = "1", features = ["io-util", "macros", "net", "rt-multi-thread"] }
mysql_async = { version = "0.34", default-features = false, features = ["minimal"] }
serenity = { version = "0.11", default-features = false, features = ["builder", "client", "gateway", "http", "model", "utils", "rustls_backend"] }

[dev-dependencies]
regex = "1"
