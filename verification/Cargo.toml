[package]
name = "macro_deck"
version = "0.1.0"
edition = "2021"
publish = false

[dependencies]
base64 = "0.22"
image = { version = "0.25", default-features = false, features = ["jpeg", "png"] }
serde = { version = "1", features = ["derive"] }
serde_json = "1"
clap = { version = "4", features = ["derive"] }
log = "0.4"
nix = { version = "0.29", features = ["process"] }
serialport = { version = "4", default-features = false }
regex = "1"
