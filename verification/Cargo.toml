[package]
name = "emberone_control"
version = "0.1.0"
edition = "2021"
publish = false

[dependencies]
heapless = "=0.8.0"
hex = { version = "=0.4.3", default-features = false }
const-murmur3 = "=0.3.0"
cortex-m-rt = "=0.7.7"
defmt = "=1.2.0"
defmt-rtt = "=1.3.1"
panic-probe = "=1.0.0"
static_cell = "=2.1.1"
embassy-executor = { version = "=0.10.0", features = ["platform-spin", "executor-thread"] }
embassy-futures = "=0.1.2"
embassy-sync = "=0.8.0"
embassy-time = "=0.5.1"
embassy-usb = "=0.6.0"
embassy-rp = { version = "=0.10.0", features = ["rp2040"] }
