[package]
name = "bn"
version = "0.1.0"
edition = "2021"

[dev-dependencies]
quickcheck = { version = "1", default-features = false }
