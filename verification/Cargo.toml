[package]
name = "windy"
version = "0.4.0"
edition = "2021"
publish = false

[dependencies]
num-bigint = "0.4"
num-integer = "0.1"
num-traits = "0.2"
rand = "0.8"
rand_chacha = "0.3"
clap = { version = "4", features = ["derive"] }
wasm-bindgen = "0.2"
