[package]
name = "recochan"
version = "0.1.0"
edition = "2021"
publish = false

[dependencies]
kdtree = "*"
nalgebra = "*"
csv = "*"
log = "*"
simplelog = "*"
config = { version = "*", default-features = false, features = ["json"] }
serde = { version = "*", features = ["derive"] }
serde_json = "*"
mysql = "*"
rocket = { version = "*", features = ["json"] }
