[package]
name = "wire_cutter"
version = "0.1.0"
edition = "2021"
publish = false

[dependencies]
cortex-m = "0.7"
cortex-m-rt = "0.7"
cortex-m-semihosting = "0.5"
defmt = "0.3"
defmt-rtt = "0.3"
microbit-v2 = "0.13"
panic-probe = { version = "0.3", features = ["print-defmt"] }
