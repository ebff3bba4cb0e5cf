[package]
name = "alice_wm"
version = "0.1.0"
edition = "2021"
publish = false

[dependencies]
anyhow = "1"
mlua = { version = "0.10", features = ["lua54", "vendored"] }
smithay = { version = "0.7", default-features = false, features = ["backend_drm", "backend_gbm", "backend_libinput", "backend_udev", "backend_session_libseat", "backend_winit", "renderer_gl", "renderer_multi", "desktop", "wayland_frontend"] }
smithay-drm-extras = "*"
tracing = "0.1"
tracing-subscriber = { version = "0.3", features = ["env-filter"] }
xdg = "3"
xkeysym = "0.2"
