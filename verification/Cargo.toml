[package]
name = "xwlrvnc"
version = "0.1.0"
edition = "2021"
publish = false

[dependencies]
libc = "=0.2.191"
rustix = { version = "=1.1.6", features = ["fs", "mm", "param", "stdio"] }
wayland-client = "=0.31.15"
wayland-protocols = { version = "=0.32.13", features = ["client", "staging", "unstable"] }
wayland-protocols-misc = { version = "=0.3.12", features = ["client"] }
wayland-protocols-wlr = { version = "=0.3.12", features = ["client"] }
x11rb-protocol = { version = "=0.14.0", features = ["damage", "randr", "render", "request-parsing", "shm", "xfixes", "xtest"] }
xkbcommon-rs = { version = "=0.1.2", features = ["client", "server"] }
