[package]
name = "atomic_lib"
version = "0.1.0"
edition = "2021"
publish = false

[dependencies]
actix-cors = "0.7"
actix-web = "4"
base64 = "0.22"
chrono = "0.4"
clap = { version = "4", features = ["derive"] }
colored = "2"
dialoguer = "0.11"
dirs = "5"
ed25519-dalek = "2"
log = "0.4"
promptly = "0.3"
rand = "0.8"
tracing = "0.1"
