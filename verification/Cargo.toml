[package]
name = "tvbox_wc"
version = "0.1.0"
edition = "2021"
publish = false

[dependencies]
anyhow = "=1.0.104"
libc = "=0.2.191"
png = "=0.17.16"
serde = { version = "=1.0.229", features = ["derive"] }
serde_json = { version = "=1.0.154", features = ["preserve_order"] }
smithay = { version = "=0.7.0", default-features = false, features = ["backend_drm", "backend_gbm", "backend_egl", "renderer_gl", "desktop", "wayland_frontend", "backend_libinput", "backend_session", "use_system_lib"] }
thiserror = "=2.0.21"
tracing = "=0.1.44"
tracing-subscriber = { version = "=0.3.23", features = ["env-filter"] }
wayland-sys = { version = "=0.31.11", features = ["dlopen"] }
