[package]
name = "ability_dice"
version = "0.1.0"
edition = "2021"
publish = false

[dependencies]
rand = "0.8"
squirrel-rng = "*"
clap = { version = "4", features = ["derive"] }
