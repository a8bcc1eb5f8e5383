[package]
name = "parser"
version = "0.1.0"
edition = "2021"
publish = false

[dependencies]
toml = "=1.1.8"
syn = { version = "=2.0.119", features = ["full", "extra-traits", "visit"] }
proc-macro2 = "=1.0.107"
parse_cfg = "=4.1.1"
quote = "=1.0.47"
