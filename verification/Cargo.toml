[package]
name = "tower_defense"
version = "0.1.0"
edition = "2021"
publish = false

[dependencies]
amethyst = { version = "0.15", default-features = false, features = ["animation", "renderer", "vulkan"] }
rand = "0.7"
serde = { version = "1", features = ["derive"] }
specs-derive = "0.4"
