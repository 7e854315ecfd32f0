[package]
name = "engarde_client"
version = "0.1.0"
edition = "2021"
publish = false

[dependencies]
num-rational = "0.4"
num-traits = "0.2"
serde = { version = "1", features = ["derive"] }
serde_json = "1"
serde-aux = "*"
serde_with = "*"
clap = { version = "4", features = ["derive"] }
rand = "*"
rurel = "*"
apply = "*"
regex = "1"
tap = "1"
