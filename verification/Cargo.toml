[package]
name = "rsmb"
version = "0.1.0"
edition = "2021"
publish = false

[dependencies]
anyhow = "1"
bytemuck = { version = "1", features = ["extern_crate_alloc"] }
clap = { version = "4", features = ["derive"] }
indicatif = "0.17"
pollster = "0.3"
rayon = "1"
wgpu = "0.19"
