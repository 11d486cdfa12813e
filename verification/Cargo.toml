[package]
name = "chaos"
version = "0.1.0"
edition = "2021"
publish = false

[dependencies]
cortex-m = "0.7"
cortex-m-rt = "0.7"
syn = { version = "1", features = ["full"] }
quote = "1"
proc-macro2 = "1"
