[package]
name = "vocab_pop"
version = "0.1.0"
edition = "2021"
publish = false

[dependencies]
rand = "0.8"
clap = { version = "4", features = ["derive"] }
ctrlc = "3"
tray-icon = "0.14"
winrt-notification = "0.5"
