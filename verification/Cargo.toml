[package]
name = "catos"
version = "0.1.0"
edition = "2021"
publish = false

[dependencies]
pc-keyboard = "=0.8.0"
spin = "=0.12.3"
x86_64 = { version = "=0.15.5", default-features = false, features = ["instructions"] }
limine = "=0.5.0"
linked_list_allocator = "=0.10.6"
lazy_static = { version = "=1.5.1", features = ["spin_no_std"] }
