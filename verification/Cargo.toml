[package]
name = "tpc_sim"
version = "0.1.0"
edition = "2021"
publish = false

[dependencies]
clap = { version = "=4.6.7", features = ["derive"] }
ctrlc = "=3.5.2"
ipc-channel = "=0.18.3"
log = "=0.4.34"
rand = "=0.8.8"
serde = { version = "1", features = ["derive"] }
stderrlog = "=0.6.0"
