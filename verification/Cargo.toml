[package]
name = "cutile"
version = "0.1.0"
edition = "2021"
publish = false

[dependencies]
half = "=2.7.1"
indexmap = "=2.14.2"
libloading = "=0.8.9"
prettyplease = "=0.2.37"
proc-macro2 = "=1.0.107"
quote = "=1.0.47"
syn = { version = "=2.0.119", features = ["full", "visit-mut", "extra-traits"] }
