[package]
name = "kamino"
version = "0.1.0"
edition = "2021"
publish = false

[dependencies]
failure = "0.1"
json = "0.12"
log = "0.4"
regex = "1"
serde = { version = "1", features = ["derive"] }
structopt = "0.3"
tokio = { version = "1", features = ["time"] }
