[package]
name = "platinium_os"
version = "1.0.0"
edition = "2021"
publish = false

[dependencies]
bootloader = { version = "0.9", features = ["map_physical_memory"] }
conquer-once = { version = "0.2.0", default-features = false }
crossbeam-queue = { version = "0.2.1", default-features = false, features = ["alloc"] }
futures-util = { version = "0.3.4", default-features = false, features = ["alloc"] }
lazy_static = { version = "1.0", features = ["spin_no_std"] }
pc-keyboard = "0.5.0"
pic8259 = "0.10.1"
spin = "0.5.2"
volatile = "0.2.6"
x86_64 = { version = "0.14.2", default-features = false, features = ["instructions"] }
