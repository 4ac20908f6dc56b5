[package]
name = "zerosh"
version = "0.1.0"
edition = "2021"
publish = false

[dependencies]
nix = { version = "0.26", features = ["fs", "process", "signal", "term", "user"] }
rustyline = "10"
signal-hook = "0.3"
