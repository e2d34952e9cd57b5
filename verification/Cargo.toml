[package]
name = "nova_library"
version = "0.1.0"
edition = "2021"
publish = false

[dependencies]
sha1 = "0.10"
async-trait = "0.1"
chrono = "0.4"
notify = "6"
rayon = "1"
serde = { version = "1", features = ["derive"] }
symphonia = { version = "0.5", features = ["mp3", "aac", "isomp4"] }
tokio = { version = "1", features = ["sync", "rt", "rt-multi-thread", "macros", "time"] }
walkdir = "2"
