[package]
name = "etch"
version = "0.1.0"
edition = "2021"
publish = false

[dependencies]
gilrs = "0.11"
rfd = "0.15"
softbuffer = "0.4"
tracing = "0.1"
tracing-subscriber = { version = "0.3", features = ["env-filter"] }
winit = "0.30"
