[package]
name = "sudoku"
version = "0.1.0"
edition = "2021"
publish = false

[dependencies]
clap = "2.33"
itertools = "0.8"
serde_json = "1"
valico = "2"
