[package]
name = "epkg"
version = "0.1.0"
edition = "2021"
publish = false

[dependencies]
base64 = "0.22"
clap = "4"
color-eyre = "0.6"
serde = { version = "1", features = ["derive"] }
serde_json = "1"
libc = "0.2"
nix = { version = "0.29", features = ["signal", "term"] }
console = "0.15"
lazy_static = "1"
log = "0.4"
