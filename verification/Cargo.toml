[package]
name = "luck_jingle"
version = "0.1.0"
edition = "2021"
publish = false

[dependencies]
image = "0.23"
imageproc = "0.22"
rusttype = "0.9"
btleplug = "*"
uuid = "*"
actix-web = "4"
