[package]
name = "rusty_roguelike"
version = "0.1.0"
edition = "2021"
publish = false

[dependencies]
bracket-lib = "*"
bracket-random = "*"
bracket-geometry = "*"
bracket-pathfinding = "*"
serde = { version = "*", features = ["derive"] }
serde_json = "*"
specs = { version = "*", features = ["serde"] }
lazy_static = "*"
strum = "*"
strum_macros = "*"
