[package]
name = "caelum"
version = "0.1.0"
edition = "2021"
publish = false

[dependencies]
ropey = { version = "=1.6.1", default-features = false, features = ["cr_lines", "simd"] }
unicode-width = "=0.2.3"
fastrand = "=2.5.0"
serde = { version = "=1.0.229", features = ["derive"] }
toml = "=1.1.8"
crossterm = "=0.29.0"
smol = "=2.0.2"
async-channel = "=2.5.0"
event-listener = "=5.4.2"
anyhow = "=1.0.104"
