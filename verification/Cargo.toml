[package]
name = "zako_core"
version = "0.1.0"
edition = "2021"
publish = false

[dependencies]
semver = "=1.0.28"
unicode-ident = "=1.0.27"
url = "=2.5.8"
sysinfo = "=0.37.2"
tokio = { version = "=1.48.0", features = ["sync", "rt", "macros"] }
parking_lot = "=0.12.5"
ignore = "=0.4.34"
camino = "=1.2.6"
reflink-copy = "=0.1.32"
dirs = "=6.0.0"
memmap2 = "=0.9.12"
blake3 = "=1.8.7"
