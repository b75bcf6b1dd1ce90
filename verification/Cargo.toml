[package]
name = "bit-register"
version = "0.1.0"
edition = "2021"
publish = false

[dependencies]
num-traits = { version = "0.2", default-features = false }
proc-macro2 = "1"
quote = "1"
syn = { version = "2", features = ["derive", "parsing", "printing"] }
