[package]
name = "crates_watcher"
version = "0.1.0"
edition = "2021"
publish = false

[dependencies]
crates_io_api = "*"
matrix_bot_api = "*"
structopt = "*"
url = "*"
lazy_static = "*"
