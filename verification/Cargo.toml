[package]
name = "hrm_core"
version = "0.1.0"
edition = "2021"
publish = false

[dependencies]
hex = "*"
btleplug = "*"
tokio = { version = "*", features = ["rt", "time", "macros"] }
uuid = "*"
