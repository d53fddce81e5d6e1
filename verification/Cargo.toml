[package]
name = "linefmt"
version = "0.1.0"
edition = "2021"
publish = false

[dependencies]
itoa = "1"
ryu = "1"
serde = { version = "1", default-features = false, features = ["std"] }
