[package]
name = "austrian_oak"
version = "0.1.0"
edition = "2021"
publish = false

[dependencies]
chrono = "0.4"
humantime = "2"
clap = { version = "4", features = ["derive"] }
