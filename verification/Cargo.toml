[package]
name = "drum_remap"
version = "0.1.0"
edition = "2021"
publish = false

[dependencies]
anyhow = "=1.0.104"
clap = { version = "=4.6.7", features = ["derive"] }
midly = { version = "=0.5.3", default-features = false, features = ["alloc", "std"] }
regex = "=1.13.1"
