[package]
name = "feo"
version = "0.1.0"
edition = "2021"
publish = false

[dependencies]
rand = "0.9"
serde = { version = "1", features = ["derive"] }
postcard = { version = "1", features = ["use-std", "experimental-derive"] }
mio = { version = "1", features = ["os-poll", "net"] }
nix = { version = "0.29", features = ["fs", "mman"] }
ctrlc = "3"
signal-hook = "0.3"
log = "0.4"
