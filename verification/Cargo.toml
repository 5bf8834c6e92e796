[package]
name = "kanshi"
version = "0.1.0"
edition = "2021"
publish = false

[dependencies]
blake3 = "1"
chrono = "0.4"
diesel = { version = "2", features = ["sqlite", "chrono", "r2d2"] }
diesel_migrations = "2"
dotenvy = "0.15"
fern = { version = "0.7", features = ["colored"] }
futures = "0.3"
log = "0.4"
poise = "0.6"
r2d2 = "0.8"
rand = "0.10"
regex = "1"
semver = "1"
serde = { version = "1", features = ["derive"] }
serde_json = "1"
shogi-img = "*"
shogi_usi_parser = "*"
tokio = { version = "1", features = ["full"] }
tokio-tungstenite = { version = "0.28", features = ["rustls-tls-webpki-roots"] }
