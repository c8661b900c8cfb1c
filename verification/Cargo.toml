[package]
name = "offgrid"
version = "0.1.0"
edition = "2021"
publish = false

[dependencies]
serde_json = "=1.0.154"
serde = { version = "=1.0.229", features = ["derive"] }
png = "=0.18.1"
image = { version = "=0.25.10", default-features = false, features = ["png", "jpeg", "webp"] }
ureq = "=3.5.1"
tiny_http = "=0.12.0"
wait-timeout = "=0.2.1"
directories = "=6.0.0"
sysinfo = { version = "=0.40.1", default-features = false, features = ["system", "disk"] }
libc = "=0.2.191"
crossterm = "=0.29.0"
open = "=5.4.5"
rfd = { version = "=0.17.2", default-features = false, features = ["xdg-portal"] }
eframe = { version = "=0.37.0", default-features = false, features = ["default_fonts", "glow", "x11"] }
egui_extras = { version = "=0.37.0", default-features = false, features = ["svg"] }
egui_commonmark = { version = "=0.26.0", default-features = false, features = ["better_syntax_highlighting"] }
llama-cpp-2 = "=0.1.160"
