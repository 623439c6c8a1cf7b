[package]
name = "omarchy-connect"
version = "0.1.0"
edition = "2021"
publish = false

[dependencies]
anyhow = "=1.0.104"
ashpd = "=0.10.3"
clap = { version = "=4.6.7", features = ["derive", "env"] }
evdev = "=0.13.2"
hex = "=0.4.3"
hmac = "=0.13.0"
if-addrs = "=0.13.4"
libc = "=0.2.191"
openh264 = "=0.8.1"
pipewire = "=0.9.2"
rcgen = "=0.13.2"
rustls = { version = "=0.23.46", default-features = false, features = ["ring", "std", "tls12"] }
serde = { version = "=1.0.229", features = ["derive"] }
serde_json = "=1.0.154"
sha2 = "=0.11.1"
spake2 = "=0.4.0"
thiserror = "=2.0.21"
tokio = { version = "=1.54.1", features = ["full"] }
tokio-rustls = { version = "=0.26.6", default-features = false, features = ["ring", "tls12"] }
tokio-util = "=0.7.20"
tracing = "=0.1.44"
tracing-subscriber = { version = "=0.3.23", features = ["env-filter"] }
wayland-client = "=0.31.15"
wayland-protocols = { version = "=0.32.13", features = ["client", "unstable"] }
wayland-protocols-wlr = { version = "=0.3.12", features = ["client"] }
x264 = "=0.5.0"
