[package]
name = "wdm"
version = "0.8.0"
edition = "2021"
publish = false

[dependencies]
calloop = "=0.14.5"
env_logger = "=0.11.11"
fontdue = "=0.9.5"
freedesktop-desktop-entry = { version = "=0.7.19", default-features = false }
libc = "=0.2.191"
log = "=0.4.35"
pam-client2 = "=0.5.5"
serde = { version = "=1.0.229", features = ["derive"] }
smithay = { version = "=0.7.0", default-features = false, features = ["backend_drm", "backend_egl", "backend_gbm", "backend_libinput", "backend_session_libseat", "backend_udev", "backend_winit", "desktop", "renderer_gl", "wayland_frontend"] }
thiserror = "=2.0.21"
toml = "=0.8.23"
uzers = "=0.12.2"
zeroize = "=1.9.1"

[dev-dependencies]
tempfile = "=3.27.0"
