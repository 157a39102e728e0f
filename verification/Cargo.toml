[package]
name = "boxing_trainer"
version = "0.1.0"
edition = "2021"
publish = false

[dependencies]
chrono = { version = "0.4", default-features = false, features = ["clock"] }
rand = "0.8"
iced = { version = "0.13", default-features = false }
