[package]
name = "radix_2_fft"
version = "0.1.0"
edition = "2021"

[dependencies]
num = "*"
rayon = "*"

[dev-dependencies]
rustfft = "*"
rand = "*"
