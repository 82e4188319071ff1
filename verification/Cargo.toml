[package]
name = "tmez"
version = "0.1.0"
edition = "2021"
publish = false

[dependencies]
egui = "=0.31.1"
sysinfo = { version = "=0.33.1", default-features = false, features = ["system", "disk", "network"] }
nvml-wrapper = "=0.10.0"
