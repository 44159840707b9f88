[package]
name = "kozan_selector"
version = "0.1.0"
edition = "2021"
publish = false

[dependencies]
cssparser = "*"
smallvec = "1"
triomphe = "*"
syn = { version = "2", features = ["full"] }
quote = "1"
proc-macro2 = "1"
