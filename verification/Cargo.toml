[package]
name = "da"
version = "0.1.0"
edition = "2021"
publish = false

[dependencies]
anyhow = "1"
chrono = "0.4"
clap = { version = "4", features = ["derive"] }
cliclack = "0.3"
dirs = "5"
flate2 = "1"
ignore = "0.4"
self-replace = "1"
serde = { version = "1", features = ["derive"] }
serde_json = "1"
ssh2 = { version = "0.9", features = ["vendored-openssl"] }
tar = "0.4"
toml = "0.8"
tracing = "0.1"
tracing-subscriber = { version = "0.3", features = ["chrono"] }
ureq = { version = "2", features = ["json"] }
walkdir = "2"
zip = { version = "2", default-features = false, features = ["deflate"] }
