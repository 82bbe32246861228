[package]
name = "desktop_automata"
version = "0.1.0"
edition = "2021"
publish = false

[dependencies]
rand = "0.8"
pollster = "0.3"
bytemuck = { version = "1", features = ["derive"] }
env_logger = { version = "0.11", default-features = false }
log = "0.4"
cfg-if = "1"
