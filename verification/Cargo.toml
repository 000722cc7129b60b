[package]
name = "aur_helper"
version = "0.1.0"
edition = "2021"
publish = false

[dependencies]
clap = "*"
raur = "*"
tokio = { version = "*", features = ["macros", "rt-multi-thread"] }
