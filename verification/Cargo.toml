[package]
name = "robotfindskitten"
version = "0.1.0"
edition = "2021"
publish = false

[dependencies]
rand = "0.4"
clap = "2"
log = "0.4"
log4rs = { version = "1", features = ["toml_format"] }
ncurses = "6"
wio = "0.2"
