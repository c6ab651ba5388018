[package]
name = "qrpix"
version = "0.1.0"
edition = "2021"
publish = false

[dependencies]
qrcode = { version = "*", default-features = false }
png = "*"
rqrr = "*"
image = { version = "*", default-features = false, features = ["png", "jpeg", "webp"] }
base64 = "*"
wasm-bindgen = "*"
js-sys = "*"
