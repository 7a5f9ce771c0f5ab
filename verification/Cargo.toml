[package]
name = "gambito"
version = "0.1.0"
edition = "2021"
publish = false

[dependencies]
fastrand = "2"
ratatui = "0.29"
crossterm = "0.28"
