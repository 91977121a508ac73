[package]
name = "unpak"
version = "0.1.0"
edition = "2021"
publish = false

[dependencies]
aes = "0.8"
byteorder = "1"
flate2 = "1"
hashbrown = "0.13"
strum = { version = "0.24", features = ["derive"] }
thiserror = "1"
