[package]
name = "cargo-chrono"
version = "0.1.0"
edition = "2021"
publish = false

[dependencies]
csv = "1"
docopt = "1"
env_logger = { version = "0.10", default-features = false }
git2 = { version = "*", default-features = false }
glob = "0.3"
gnuplot = "*"
log = "0.4"
pbr = "1"
regex = "1"
serde = { version = "1", features = ["derive"] }
