[package]
name = "gctpl"
version = "0.1.0"
edition = "2021"
publish = false

[dependencies]
gctex = "*"
binrw = "*"
clap = { version = "4", features = ["derive"] }
strum = { version = "*", features = ["derive"] }
glob = "*"
image = { version = "*", default-features = false, features = ["png", "jpeg", "bmp", "gif"] }
