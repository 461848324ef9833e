[package]
name = "shapeme"
version = "0.1.0"
edition = "2021"
publish = false

[dependencies]
rand = "0.9"
serde = { version = "1", features = ["derive"] }
bincode = { version = "2", features = ["serde"] }
image = { version = "0.25", default-features = false, features = ["png", "jpeg"] }
clap = { version = "4", features = ["derive"] }
rayon = "1"
sdl2 = "0.37"
anyhow = "1"
tracing = "0.1"
tracing-subscriber = "0.3"
