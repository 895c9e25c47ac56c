[package]
name = "cosmic_cassette_deck"
version = "0.1.0"
edition = "2021"
publish = false

[dependencies]
image = { version = "=0.25.10", default-features = false, features = ["png", "jpeg", "webp"] }
serde_json = "=1.0.154"
ureq = { version = "=2.12.1", features = ["json"] }
lofty = "=0.22.4"
walkdir = "=2.5.0"
rodio = "=0.20.1"
mpris-server = "=0.8.1"
tokio = { version = "=1.54.1", features = ["rt", "sync", "time", "macros"] }
rfd = "=0.15.4"
ab_glyph = "=0.2.32"
