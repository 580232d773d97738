[package]
name = "hardcpy"
version = "0.1.0"
edition = "2021"
publish = false

[dependencies]
chrono = "=0.4.45"
clap = { version = "=4.6.7", features = ["derive"] }
colog = "=1.4.0"
colored = "=3.1.1"
dirs = "=5.0.1"
fdlimit = "=0.3.0"
fnv = "=1.0.7"
indicatif = "=0.18.6"
indicatif-log-bridge = "=0.2.3"
log = "=0.4.34"
rusqlite = "=0.31.0"
sha2 = "=0.10.9"
