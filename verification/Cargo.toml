[package]
name = "wgpu_tiled"
version = "0.1.0"
edition = "2021"
publish = false

[dependencies]
bitflags = { version = "=2.13.2", features = ["serde"] }
bytemuck = { version = "=1.25.2", features = ["derive"] }
serde = { version = "=1.0.229", features = ["derive"] }
static_assertions = "=1.1.0"
