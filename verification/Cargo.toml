[package]
name = "sbat"
version = "0.1.0"
edition = "2021"
publish = false

[dependencies]
anyhow = "=1.0.104"
arrayvec = "=0.7.8"
clap = { version = "=4.6.7", features = ["derive"] }
fs-err = "=3.3.2"
object = "=0.40.0"
tabled = "=0.22.0"
