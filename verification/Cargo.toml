[package]
name = "max_image_sender"
version = "0.1.0"
edition = "2021"
publish = false

[dependencies]
image = { version = "0.25", default-features = false, features = ["png", "jpeg", "gif", "bmp"] }
indicatif = "0.17"
rand = "0.8"
rayon = "1"
sha2 = "0.10"
socket2 = "0.5"
thiserror = "1"
