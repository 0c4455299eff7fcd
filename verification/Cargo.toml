[package]
name = "cosette"
version = "0.1.0"
edition = "2021"
publish = false

[dependencies]
imbl = "*"
itertools = "*"
indenter = "*"
serde = { version = "*", features = ["derive"] }
z3 = "*"
