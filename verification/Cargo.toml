[package]
name = "recall"
version = "0.1.0"
edition = "2021"
publish = false

[dependencies]
rayon = "=1.12.0"
regex = "=1.13.1"
chrono = "=0.4.45"
sysinfo = "=0.39.6"
pest = "=2.9.4"
libc = "=0.2.191"
serde = { version = "1", features = ["derive"] }
