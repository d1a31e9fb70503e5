[package]
name = "bfmachine"
version = "0.1.0"
edition = "2021"
publish = false

[dependencies]
clap = { version = "4", features = ["derive"] }
crossterm = "0.27"
humantime = "2"
itertools = "0.12"
ratatui = "0.26"
smallvec = { version = "1", features = ["const_new"] }
spin = "0.9"
tui-input = "0.8"
uncased = "0.9"
