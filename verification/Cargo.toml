[package]
name = "asmos"
version = "0.1.0"
edition = "2021"
publish = false

[dependencies]
x86_64 = { version = "0.14", default-features = false, features = ["instructions"] }
linked_list_allocator = "0.10"
multiboot2 = "0.22"
spin = "0.9"
lazy_static = { version = "1.4", features = ["spin_no_std"] }
uart_16550 = "0.2"
log = "0.4"
