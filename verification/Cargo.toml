[package]
name = "sonnun"
version = "0.1.0"
edition = "2021"
publish = false

[dependencies]
base64 = "0.21"
ed25519-dalek = { version = "2", features = ["rand_core"] }
rand = "0.8"
sha2 = "0.10"
serde = { version = "1", features = ["derive"] }
serde_json = { version = "1", features = ["arbitrary_precision"] }
clap = "4"
tokio = { version = "1", features = ["rt-multi-thread", "macros"] }
sqlx = { version = "0.7", default-features = false, features = ["runtime-tokio", "sqlite"] }
reqwest = { version = "0.11", default-features = false, features = ["json", "rustls-tls"] }
