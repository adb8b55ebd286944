[package]
name = "kpt_lib"
version = "0.1.0"
edition = "2021"
publish = false

[dependencies]
cgmath = "0.17"
dxf = "0.6"
egaku2d = "*"
orchestrator = "*"
ply-rs = "0.1"
serde = { version = "1", features = ["derive"] }
serde_json = "1"
spade = "1.8"
