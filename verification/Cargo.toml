[package]
name = "touchbar"
version = "0.1.0"
edition = "2021"
publish = false

[dependencies]
anyhow = "1"
attestation-verify = "*"
glow = "*"
khronos-egl = { version = "*", features = ["dynamic"] }
libc = "0.2"
reqwest = { version = "*", features = ["blocking"] }
semver = "1"
serde = { version = "1", features = ["derive"] }
serde_json = "1"
sha2 = "0.10"
snap = "1"
tempfile = "3"
toml = "*"
url = "2"
wayland-client = "*"
wayland-egl = "*"
