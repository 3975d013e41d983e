[package]
name = "fd"
version = "0.1.0"
edition = "2021"
publish = false

[dependencies]
regex = "*"
ignore = "*"
clap = "*"
atty = "*"
num_cpus = "*"
ansi_term = "*"
