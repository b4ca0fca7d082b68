[package]
name = "terminal_tombcrawler"
version = "0.1.0"
edition = "2021"

[dependencies]
aglet = "*"
ahash = "0.8"
argh = "0.1"
crossterm = "*"
eyre = "0.6"
nom = "7"
