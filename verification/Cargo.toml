[package]
name = "compute"
version = "0.1.0"
edition = "2021"
publish = false

[dependencies]
tandem = "=0.3.0"
rand_chacha = "=0.3.1"
curve25519-dalek = "=4.0.0-pre.1"
serde = { version = "*", features = ["derive"] }
anyhow = "*"
hex = "*"
tracing = "*"
