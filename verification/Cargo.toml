[package]
name = "bloom"
version = "0.1.0"
edition = "2021"
publish = false

[dependencies]
rust-ini = "*"
redis = "0.21"
r2d2 = "*"
r2d2_redis = "*"
