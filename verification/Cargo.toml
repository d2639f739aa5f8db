[package]
name = "km-hub"
version = "0.1.0"
edition = "2021"
publish = false

[dependencies]
anyhow = "1"
bluer = { version = "0.17", features = ["bluetoothd", "l2cap", "rfcomm"] }
dbus = { version = "0.9", features = ["vendored"] }
evdev = { version = "0.13", features = ["tokio"] }
futures = "0.3"
serde = { version = "1", features = ["derive"] }
tokio = { version = "1", features = ["full"] }
tokio-util = "0.7"
toml = "0.9"
toml_edit = "0.23"
tracing = "0.1"
tracing-subscriber = { version = "0.3", features = ["env-filter"] }
