[package]
name = "pu_239"
version = "0.1.0"
edition = "2021"
publish = false

[dependencies]
syn = { version = "2", features = ["full", "visit"] }
quote = "1"
proc-macro2 = "1"

[dev-dependencies]
postcard = { version = "1", features = ["use-std"] }
