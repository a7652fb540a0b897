[package]
name = "paddock_forensics"
version = "0.1.0"
edition = "2021"
publish = false

[dependencies]
image = { version = "=0.25.10", default-features = false, features = ["jpeg", "png", "webp", "gif", "tiff", "bmp"] }
ndarray = "=0.16.1"
num-complex = "=0.4.6"
rustdct = "=0.7.1"
rustfft = "=6.4.1"
serde = { version = "=1.0.229", features = ["derive"] }
thiserror = "=2.0.21"
tracing = "=0.1.44"
