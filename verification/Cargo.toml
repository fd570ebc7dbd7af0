[package]
name = "logcabin"
version = "0.1.0"
edition = "2021"
publish = false

[dependencies]
p256 = "0.13"
sha2 = "0.10"
rand_core = { version = "0.6", features = ["getrandom"] }
anyhow = "1"
clap = { version = "4", features = ["derive"] }
env_logger = "0.11"
log = "0.4"
prost = "0.13"
tokio = { version = "1", features = ["rt-multi-thread", "macros"] }
tonic = "0.12"
