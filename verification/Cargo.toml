[package]
name = "ironcondor"
version = "0.1.0"
edition = "2021"
publish = false

[dependencies]
chrono = "0.4"
optionstratlib = "*"
positive = "*"
rand_chacha = "*"
rust_decimal = "1"
serde = { version = "1", features = ["derive"] }
serde_json = "1"
sha2 = "0.10"
thiserror = "2"
