[package]
name = "audit_sampling"
version = "0.1.0"
edition = "2021"
publish = false

[dependencies]
anyhow = "=1.0.104"
calamine = { version = "=0.36.1", features = ["chrono"] }
chrono = "=0.4.45"
clap = { version = "=4.6.7", features = ["derive"] }
csv = "=1.4.0"
rand = "=0.9.5"
rust_xlsxwriter = "=0.99.1"
serde = { version = "=1.0.229", features = ["derive"] }
serde_json = "=1.0.151"
statrs = "=0.19.1"
