[package]
name = "guideme"
version = "0.1.1"
edition = "2021"
publish = false

[dependencies]
heck = "0.5"
serde = { version = "1", features = ["derive"] }
serde_json = "1"
schemars = "1"
reqwest = { version = "0.12", default-features = false, features = ["json", "rustls-tls"] }
tokio = { version = "1", features = ["time"] }
tracing = "0.1"
thiserror = "2"

[dev-dependencies]
tokio = { version = "1", features = ["time", "rt", "macros"] }
