[package]
name = "embassy_rp"
version = "0.1.0"
edition = "2021"
publish = false

[dependencies]
cortex-m = "=0.7.10"
critical-section = "1"
embassy-hal-internal = { version = "=0.1.0", features = ["cortex-m", "prio-bits-2"] }
rp-pac = "=6.0.0"
rp2040-boot2 = "=0.3.0"
