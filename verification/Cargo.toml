[package]
name = "stow"
version = "0.1.0"
edition = "2021"
publish = false

[dependencies]
clap = { version = "4", features = ["derive"] }
eyre = "0.6"
log = "0.4"
log4rs = "1"
num_cpus = "1"
rayon = "1"
rpassword = "7"
secstr = "0.5"
tempfile = "3"
which = "*"
