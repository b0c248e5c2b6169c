[package]
name = "ftdaye"
version = "0.1.0"
edition = "2021"
publish = false

[dependencies]
bitvec = "1"
docsplay = "0.1"
log = "0.4"
nusb = "0.1"
thiserror = "1"
