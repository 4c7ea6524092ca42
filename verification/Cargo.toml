[package]
name = "vector_storm"
version = "0.1.0"
edition = "2021"
publish = false

[dependencies]
macroquad = "0.4"
gilrs = "0.11"
rodio = "0.20"
