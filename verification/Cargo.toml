[package]
name = "pcm"
version = "0.1.0"
edition = "2021"
publish = false

[dependencies]
base64 = "0.22"
serde = "1"
thiserror = "2"
time = "0.3"
