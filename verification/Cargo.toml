[package]
name = "buffa"
version = "0.1.0"
edition = "2021"
publish = false

[dependencies]
bytes = "=1.12.1"
prettyplease = "=0.2.37"
proc-macro2 = "=1.0.107"
quote = "=1.0.47"
syn = { version = "=2.0.119", features = ["extra-traits", "full", "parsing", "printing"] }
thiserror = "=2.0.21"
