[package]
name = "mykernel"
version = "0.1.0"
edition = "2021"
publish = false

[dependencies]
spin = "0.9"
x86_64 = { version = "0.15", default-features = false, features = ["instructions"] }
pc-keyboard = "0.7"
conquer-once = { version = "0.4", default-features = false }
crossbeam-queue = { version = "0.3", default-features = false, features = ["alloc"] }
futures-util = { version = "0.3", default-features = false, features = ["alloc"] }
