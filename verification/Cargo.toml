[package]
name = "cbidiff"
version = "0.1.0"
edition = "2021"
publish = false

[dependencies]
anyhow = "*"
bidiff = "*"
brotli = "*"
env_logger = "*"
hmac-sha256 = "*"
log = "*"
pico-args = "*"
size = "*"
