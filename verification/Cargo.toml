[package]
name = "pw"
version = "0.1.0"
edition = "2021"
publish = false

[dependencies]
age = "0.11"
anyhow = "1"
arboard = "3"
clap = { version = "4", features = ["derive"] }
directories = "6"
rand = "0.8"
rpassword = "7"
tempfile = "3"
