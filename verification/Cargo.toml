[package]
name = "quiche_multipath"
version = "0.1.0"
edition = "2021"
publish = false

[dependencies]
octets = "0.3"
smallvec = "1"
thiserror = "*"
