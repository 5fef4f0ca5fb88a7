[package]
name = "cosmic_switch_less"
version = "0.3.0"
edition = "2021"
publish = false

[dependencies]
freedesktop-desktop-entry = { version = "=0.8.4", default-features = false }
calloop = "=0.14.5"
calloop-wayland-source = "=0.4.1"
tokio = { version = "=1.54.1", features = ["rt", "sync", "signal", "time", "macros"] }
serde = { version = "=1.0.229", features = ["derive"] }
cosmic-protocols = { version = "=0.2.0", features = ["client"] }
cosmic-client-toolkit = "=0.2.0"
