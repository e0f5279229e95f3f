[package]
name = "chacha20poly1305"
version = "0.1.0"
edition = "2021"
publish = false

[dependencies]
aead = "=0.6.1"
chacha20 = { version = "=0.10.2", features = ["zeroize"] }
cipher = "=0.5.2"
poly1305 = { version = "=0.9.1", features = ["zeroize"] }
zeroize = "=1.9.1"
