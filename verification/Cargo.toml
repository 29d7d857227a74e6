[package]
name = "tuser"
version = "0.1.0"
edition = "2021"
publish = false

[dependencies]
log = "*"
reqwest = { version = "*", default-features = false, features = ["blocking"] }
rusoto_core = { version = "*", default-features = false, features = ["rustls"] }
rusoto_secretsmanager = { version = "*", default-features = false, features = ["rustls"] }
serde = { version = "*", features = ["derive"] }
serde_json = "*"
simple_logger = "*"
tokio = { version = "*", features = ["macros", "rt-multi-thread"] }
