[package]
name = "dotr"
version = "0.1.0"
edition = "2021"
publish = false

[dependencies]
clap = { version = "*", features = ["derive"] }
console = "*"
dialoguer = "*"
directories = "*"
glob = "*"
path-absolutize = "*"
thiserror = "*"
