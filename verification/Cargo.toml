[package]
name = "d3os"
version = "0.1.0"
edition = "2021"
publish = false

[dependencies]
anstyle-parse = "0.2"
bitflags = "2"
bytemuck = { version = "1", features = ["derive"] }
chrono = { version = "0.4", default-features = false, features = ["alloc"] }
httparse = { version = "1", default-features = false }
log = "0.4"
pc-keyboard = "0.8"
pci_types = "0.10"
spin = "0.9"
tock-registers = "0.9"
unifont = "1"
uuid = { version = "1", default-features = false }
x86_64 = { version = "0.15", default-features = false, features = ["instructions"] }
