[package]
name = "clf_parser"
version = "0.1.0"
edition = "2021"
publish = false

[dependencies]
chrono = "0.4"
clap = { version = "4", features = ["derive"] }
logwatcher = "0.1"
rbl_circular_buffer = "*"
termion = "1.5"
tui = { version = "0.12", default-features = false, features = ["termion"] }
