[package]
name = "oelung"
version = "0.1.0"
edition = "2021"
publish = false

[dependencies]
anyhow = "1"
crossterm = "0.28"
smallvec = "2.0.0-alpha.1"
smol_str = "0.3"
thiserror = "1"
derive_builder = "0.20"
