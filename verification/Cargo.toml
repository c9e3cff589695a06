[package]
name = "distpac"
version = "0.1.0"
edition = "2021"
publish = false

[dependencies]
sysinfo = "0.17"
anyhow = "1"
clap = { version = "4", features = ["derive"] }
colored = "2"
indicatif = "0.17"
log = "0.4"
pretty-bytes = "0.2"
serde = { version = "1", features = ["derive"] }
serde_yaml = "0.9"
stderrlog = "0.6"
ureq = "2"
