[package]
name = "cdl_maze"
version = "0.1.0"
edition = "2021"
publish = false

[dependencies]
rand = "=0.8.8"
clap = { version = "=4.6.7", features = ["derive"] }
minifb = "*"
image = { version = "*", default-features = false, features = ["png"] }
rayon = "*"
serde = { version = "1", features = ["derive"] }
serde_json = "1"
hotwatch = "*"
