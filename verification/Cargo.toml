[package]
name = "lethal_empire"
version = "0.1.0"
edition = "2021"
publish = false

[dependencies]
bytemuck = "=1.25.2"
noise = { version = "=0.8.2", default-features = false }
rand_chacha = "=0.3.1"

[dev-dependencies]
rand = "=0.8.8"
