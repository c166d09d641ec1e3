[package]
name = "scjaccard"
version = "0.1.0"
edition = "2021"
publish = false

[dependencies]
rust-htslib = { version = "=0.38.2", default-features = false }
hts-sys = { version = "=2.0.1", default-features = false }
rayon = "=1.12.0"
structopt = "=0.3.26"
log = "=0.4.34"
env_logger = "=0.11.11"
