[package]
name = "epsilon"
version = "0.1.0"
edition = "2021"
publish = false

[dependencies]
rand = "0.9"
crossterm = "0.28"
rayon = "1"
once_cell = "1"
