[package]
name = "colony"
version = "0.1.0"
edition = "2021"
publish = false

[dependencies]
screeps-game-api = "*"
js-sys = "*"
wasm-bindgen = "*"
log = "*"
