[package]
name = "hyper-loader"
version = "0.1.0"
edition = "2021"
publish = false

[dependencies]
calloop = "0.13"
calloop-wayland-source = "0.3"
clap = { version = "4", features = ["derive"] }
image = { version = "0.25", default-features = false, features = ["gif", "png"] }
serde = { version = "1", features = ["derive"] }
smithay-client-toolkit = { version = "0.19", default-features = false, features = ["calloop"] }
tiny-skia = "0.11"
toml = "0.8"
wayland-client = "0.31"
