[package]
name = "haste"
version = "0.1.0"
edition = "2021"
publish = false

[dependencies]
anyhow = "1"
prost = "0.13"
snap = "1"
thiserror = "2"
