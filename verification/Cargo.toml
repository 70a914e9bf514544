[package]
name = "cadastre"
version = "0.1.0"
edition = "2021"
publish = false

[dependencies]
blake3 = "*"
encoding_rs = "*"
anyhow = "*"
bytes = "*"
bzip2 = "*"
clap = { version = "*", features = ["derive"] }
deadpool-postgres = "*"
dotenvy = "*"
futures = "*"
serde = { version = "*", features = ["derive"] }
serde_json = "*"
tar = "*"
tokio = { version = "*", features = ["rt-multi-thread", "macros", "sync", "time"] }
tokio-postgres = "*"
tokio-postgres-rustls = "*"
rustls = "*"
webpki-roots = "*"
