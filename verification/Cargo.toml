[package]
name = "lib_render"
version = "0.1.0"
edition = "2021"
publish = false

[dependencies]
colored = "*"
getopts = "*"
image = { version = "*", default-features = false, features = ["png"] }
num = "*"
pbr = "*"
rand = "*"
scoped-pool = "*"
serde = { version = "*", features = ["derive"] }
serde_json = "*"
