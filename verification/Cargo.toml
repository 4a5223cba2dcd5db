[package]
name = "birthday_list"
version = "0.1.0"
edition = "2021"
publish = false

[dependencies]
chrono = "=0.4.45"
clap = { version = "=4.6.7", features = ["derive"] }
csv = "=1.4.0"
regex = "=1.13.1"
rust_xlsxwriter = "=0.102.0"
