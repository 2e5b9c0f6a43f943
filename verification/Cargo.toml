[package]
name = "bench_harness"
version = "0.1.0"
edition = "2021"
publish = false

[dependencies]
hex = "0.4"
sha2 = "0.10"
sysinfo = { version = "0.30", default-features = false }
