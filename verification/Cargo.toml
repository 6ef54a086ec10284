[package]
name = "grid_tactics"
version = "0.1.0"
edition = "2021"
publish = false

[dependencies]
pathfinding = "4"
rand = "0.9"
rand_chacha = "0.9"
bevy = { version = "0.16", default-features = false }
image = { version = "0.25", default-features = false, features = ["png"] }
glob = "0.3"
log = "0.4"
