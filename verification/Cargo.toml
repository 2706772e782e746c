[package]
name = "mapgen"
version = "0.1.0"
edition = "2021"
publish = false

[dependencies]
arrayvec = "0.7"
crossterm = "0.25"
fastrand = "2"
rand = "0.8"
textwrap = "0.16"
tui = "0.19"
