[package]
name = "spi_sprites"
version = "0.1.0"
edition = "2021"
publish = false

[dependencies]
anyhow = "1"
bitflags = "1"
bmp = "*"
byteorder = "1"
clap = { version = "3", features = ["derive"] }
image = { version = "*", default-features = false, features = ["png"] }
