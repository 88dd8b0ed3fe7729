[package]
name = "spz_sandpile"
version = "0.1.0"
edition = "2021"
publish = false

[dependencies]
bincode = "1.3"
indicatif = "0.17"
plotters = "0.3"
serde = { version = "1", features = ["derive"] }
toml = "0.8"
