[package]
name = "dotenv_codegen"
version = "0.15.0"
edition = "2021"
publish = false

[dependencies]
litrs = "0.2"
proc-macro2 = "1"
quote = "1"
syn = { version = "1", features = ["full"] }
