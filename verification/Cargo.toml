[package]
name = "punch"
version = "0.1.0"
edition = "2021"
publish = false

[dependencies]
chrono = "0.4"
clap = "2"
comfy-table = { version = "*", default-features = false }
dialoguer = "*"
directories = "*"
nanoserde = "*"
