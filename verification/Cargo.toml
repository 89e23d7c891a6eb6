[package]
name = "dxtr_imgs"
version = "0.1.0"
edition = "2021"
publish = false

[dependencies]
image = "0.25"
uuid = { version = "1", features = ["v4"] }
thiserror = "2"
tracing = "0.1"
tracing-subscriber = { version = "0.3", features = ["env-filter"] }
