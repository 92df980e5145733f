[package]
name = "epub2mdbook"
version = "0.1.0"
edition = "2021"
publish = false

[dependencies]
clap = { version = "4", features = ["derive"] }
epub = "2"
htmd = "*"
regex = "1"
thiserror = "*"
