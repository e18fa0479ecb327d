[package]
name = "quantum_dungeon"
version = "0.1.0"
edition = "2021"
publish = false

[dependencies]
rand = "0.8"
rune = "0.13"
anyhow = "1"
ron = "0.8"
serde = { version = "1", features = ["derive"] }
clap = { version = "4", features = ["derive"] }
log = "0.4"
