[package]
name = "genkan"
version = "0.1.0"
edition = "2021"
publish = false

[dependencies]
base64 = "=0.23.1"
bytes = "=1.12.1"
chrono = "=0.4.45"
clap = { version = "=4.6.7", features = ["derive"] }
cosmic-text = "=0.19.0"
iced = { version = "=0.14.0", default-features = false, features = ["image-without-codecs", "tiny-skia", "tokio", "wayland"] }
iced_runtime = "=0.14.0"
image = { version = "0.25", default-features = false, features = ["jpeg"] }
libc = "=0.2.191"
moxcms = "=0.8.1"
plist = "=1.10.3"
quick-xml = "=0.42.0"
rustix = { version = "=1.1.6", features = ["fs", "process", "pipe", "event", "time"] }
shell-words = "=1.1.1"
smithay-client-toolkit = { version = "=0.21.1", default-features = false }
thiserror = "=2.0.21"
tokio = { version = "=1.54.1", features = ["rt", "time", "sync"] }
wayland-client = "=0.31.15"
zbus = { version = "=5.19.0", default-features = false, features = ["tokio"] }
zeroize = "=1.9.1"
