[package]
name = "roqoqo-mock"
version = "0.1.0"
edition = "2021"
publish = false

[dependencies]
num-complex = "=0.4.6"
rand = "=0.8.8"
roqoqo = "=1.22.2"

[dev-dependencies]
roqoqo-test = "*"
