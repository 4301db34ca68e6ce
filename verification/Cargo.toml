[package]
name = "paperdoll_tar"
version = "0.1.0"
edition = "2021"
publish = false

[dependencies]
paperdoll = "*"
tar = "*"
serde_yaml = "*"
image = "*"
