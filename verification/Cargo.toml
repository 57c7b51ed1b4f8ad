[package]
name = "h5tui"
version = "0.1.0"
edition = "2021"
publish = false

[dependencies]
anyhow = "1"
clap = { version = "4", features = ["derive"] }
crossterm = "0.27"
hdf5 = "0.8"
humansize = "2"
ratatui = "0.23"
regex = "1"
