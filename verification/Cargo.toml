[package]
name = "icsprism"
version = "0.1.0"
edition = "2021"
publish = false

[dependencies]
clap = { version = "4", features = ["derive"] }
serde = { version = "1", features = ["derive"] }
serde_json = "1"
toml = "0.8"
libafl = "0.15"
libafl_bolts = "0.15"
libc = "0.2"
inkwell = "*"
