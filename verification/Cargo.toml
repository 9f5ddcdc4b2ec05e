[package]
name = "ecogrid"
version = "0.1.0"
edition = "2021"
publish = false

[dependencies]
bimap = "0.4"
rand = { version = "0.7", default-features = false }
rand_pcg = "0.2"
sdl2 = "0.34"
serde = { version = "1", features = ["derive"] }
serde_json = "1"
