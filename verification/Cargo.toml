[package]
name = "pycors"
version = "0.1.0"
edition = "2021"
publish = false

[dependencies]
flate2 = "1"
tar = "0.4"
subprocess = "0.2"
indicatif = "*"
chrono = "0.4"
log = "0.4"
env_logger = "*"
