[package]
name = "latin_tui"
version = "0.1.0"
edition = "2021"
publish = false

[dependencies]
rand = { version = "0.8", features = ["small_rng"] }
bracket-pathfinding = "0.8"
ratatui = "0.29"
color-eyre = "0.6"
csv = "1"
serde = { version = "1", features = ["derive"] }
interslavic = "*"
strum = { version = "0.26", features = ["derive"] }
