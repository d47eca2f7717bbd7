[package]
name = "quake_lights"
version = "0.1.0"
edition = "2021"
publish = false

[dependencies]
artnet_protocol = "*"
chrono = "0.4"
serde = { version = "1", features = ["derive"] }
serde_json = "1"
futures = "0.3"
spmc = "0.3"
tokio = { version = "0.2", features = ["full"] }
warp = "0.2"
reqwest = { version = "0.10", features = ["json"] }
wgpu = "0.6"
shaderc = "0.6"
