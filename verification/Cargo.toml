[package]
name = "bench"
version = "0.1.0"
edition = "2021"
publish = false

[dependencies]
anyhow = "1"
axum = "0.8"
chrono = { version = "0.4", default-features = false, features = ["clock"] }
clap = { version = "4", features = ["derive"] }
futures = "0.3"
hdrhistogram = { version = "7", default-features = false }
indicatif = "0.17"
mime_guess = "2"
open = "5"
printpdf = { version = "0.7", default-features = false }
reqwest = { version = "0.12", default-features = false, features = ["rustls-tls"] }
rust-embed = "8"
serde = { version = "1", features = ["derive"] }
serde_json = "1"
tokio = { version = "1", features = ["rt-multi-thread", "macros", "net", "sync", "time"] }
tower-http = { version = "0.6", features = ["cors"] }
