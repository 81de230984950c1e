[package]
name = "kernel"
version = "0.1.0"
edition = "2021"
publish = false

[dependencies]
bitflags = "2"
buddy_system_allocator = "*"
hashbrown = "0.14"
lazy_static = { version = "1", features = ["spin_no_std"] }
primitive_enum = "*"
riscv = "0.10"
spin = "0.9"
virtio-drivers = "*"
