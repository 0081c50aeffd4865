[package]
name = "ngos"
version = "0.1.0"
edition = "2021"
publish = false

[dependencies]
num = "0.4"
heapless = "0.8"
spin = "0.5"
x86_64 = { version = "0.15", default-features = false, features = ["instructions"] }
bootloader = "0.9"
log = "0.4"
linked_list_allocator = "0.10"
