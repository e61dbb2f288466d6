[package]
name = "capybara"
version = "0.1.0"
edition = "2021"
publish = false

[dependencies]
byteorder = "=1.5.0"
slab = "=0.4.12"
libc = "=0.2.191"
nix = { version = "=0.31.3", features = ["fs"] }
arrayvec = "0.7"
bit-vec = "0.6"
