[package]
name = "chyes"
version = "0.1.0"
edition = "2021"
publish = false

[dependencies]
crossterm = "0.25"
termion = "2"
tui = "0.19"
