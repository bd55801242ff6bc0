[package]
name = "devi"
version = "0.1.0"
edition = "2021"
publish = false

[dependencies]
chrono = "*"
clap = { version = "*", features = ["derive"] }
libc = "*"
rayon = "*"
serde = { version = "*", features = ["derive"] }
serde-big-array = "*"
