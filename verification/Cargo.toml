[package]
name = "ohhplayer"
version = "0.1.0"
edition = "2021"
publish = false

[dependencies]
ffmpeg-sys-next = "*"
libc = "*"
rfd = "*"
sdl2 = "*"
serde = { version = "1", features = ["derive"] }
serde_json = "1"
slint = { version = "1", default-features = false, features = ["std", "compat-1-2"] }
