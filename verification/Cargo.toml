[package]
name = "rxr"
version = "0.1.0"
edition = "2021"
publish = false

[dependencies]
clap = "2"
difference = "2"
eval = "0.4"
ncurses = "5"
regex = "1"
serde = { version = "1", features = ["derive"] }
serde_json = "1"
