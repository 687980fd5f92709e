[package]
name = "control"
version = "0.1.0"
edition = "2021"
publish = false

[dependencies]
heapless = "0.8"
embassy-time = { version = "*", features = ["std"] }
embassy-sync = "*"
embassy-futures = "*"
embassy-executor = "*"
embassy-usb = "*"
embassy-rp = "*"
libm = "*"
static_cell = "*"
defmt = "*"
