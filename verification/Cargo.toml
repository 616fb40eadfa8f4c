[package]
name = "alisp"
version = "0.1.0"
edition = "2021"
publish = false

[dependencies]
smallvec = "1"
smallstr = "0.3"
derive_more = { version = "2", features = ["display", "from"] }
variantly = "0.4"
