[package]
name = "rav"
version = "0.1.0"
edition = "2021"
publish = false

[dependencies]
num-rational = { version = "0.4", default-features = false, features = ["std"] }
num-traits = "0.2"
thiserror = "1"
anyhow = "1"
clap = { version = "4", features = ["derive"] }
