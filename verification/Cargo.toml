[package]
name = "rustyrender"
version = "0.1.0"
edition = "2021"
publish = false

[dependencies]
image = { version = "0.23", default-features = false, features = ["png"] }
log = "0.4"
tobj = "2"
