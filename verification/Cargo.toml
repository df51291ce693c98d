[package]
name = "boggers_ts"
version = "0.1.0"
edition = "2021"
publish = false

[dependencies]
x86_64 = { version = "=0.15.5", default-features = false, features = ["instructions"] }
crossbeam-queue = "=0.3.14"
spin = "=0.9.9"
lazy_static = "=1.5.1"
bootloader = { version = "=0.9.35", features = ["map_physical_memory"] }
pc-keyboard = "=0.7.0"
futures-util = { version = "=0.3.34", default-features = false, features = ["alloc"] }
