[package]
name = "ssh_agent_forward"
version = "0.1.0"
edition = "2021"
publish = false

[dependencies]
anyhow = "=1.0.104"
async-pipe = "=0.1.3"
futures = "=0.3.34"
parking_lot = "=0.12.5"
smol = "=2.0.2"
tokio = { version = "=0.2.25", default-features = false }
