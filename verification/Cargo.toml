[package]
name = "patina_key"
version = "0.1.0"
edition = "2021"
publish = false

[dependencies]
p256 = { version = "*", default-features = false, features = ["ecdsa"] }
sha2 = { version = "*", default-features = false }
embedded-hal = "1"
cortex-m = "*"
cortex-m-rt = "*"
panic-halt = "*"
