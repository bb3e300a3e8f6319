[package]
name = "trixie"
version = "0.1.0"
edition = "2021"
publish = false

[dependencies]
ratatui = { version = "=0.26.3", default-features = false }
rustybuzz = "=0.20.1"
ab_glyph = "=0.2.32"
serde = { version = "=1.0.229", features = ["derive"] }
serde_json = "=1.0.154"
libc = "=0.2.191"
tracing = "=0.1.44"
tracing-subscriber = "0.3"
smithay = "*"
calloop = "*"
gl = "0.14"
xkbcommon = "*"
rustix = { version = "*", features = ["fs"] }
