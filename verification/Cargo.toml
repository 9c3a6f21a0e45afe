[package]
name = "mpc_prep"
version = "0.1.0"
edition = "2021"
publish = false

[dependencies]
lambdaworks-math = "=0.13.0"
log = "=0.4.35"
bincode = "=1.3.3"
serde = { version = "=1.0.229", features = ["derive"] }
rand = "0.8"
