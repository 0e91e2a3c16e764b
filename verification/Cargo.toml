[package]
name = "newton"
version = "0.1.0"
edition = "2021"
publish = false

[dependencies]
base64 = "=0.22.1"
byteorder = "=1.5.0"
rand = "=0.8.8"
lexpr = "=0.2.7"
log = "=0.4.35"
env_logger = "=0.11.11"
glam = "=0.34.2"
clap = { version = "=4.6.7", features = ["cargo"] }
device_query = "=4.0.1"
termion = "=4.0.6"
uuid = { version = "=1.29.0", features = ["v4"] }
redis = { version = "*", default-features = false }
png = "*"
image = { version = "0.25", default-features = false, features = ["png", "jpeg"] }
glow = "*"
cpal = "*"
web-image-meta = "*"
tokio = { version = "1", features = ["rt-multi-thread", "macros"] }
wasm-bindgen = "*"
cfg-if = "1"
