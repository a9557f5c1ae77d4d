[package]
name = "textutils"
version = "0.1.0"
edition = "2021"
publish = false

[dependencies]
ansi_term = "0.12"
chrono = "0.4"
clap = "4"
csv = "1"
itertools = "*"
rand = "0.8"
regex = "1"
tabular = "*"
thousands = "0.2"
users = "0.11"
walkdir = "2"
