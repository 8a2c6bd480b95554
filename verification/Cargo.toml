[package]
name = "h3db"
version = "0.1.0"
edition = "2021"
publish = false

[dependencies]
h3ron = "*"
h3o = "*"
geo = "*"
tokio = { version = "*", features = ["rt", "rt-multi-thread"] }
