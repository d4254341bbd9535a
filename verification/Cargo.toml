[package]
name = "lumberjack"
version = "0.1.0"
edition = "2021"
publish = false

[dependencies]
freedesktop-icons = "*"
xdg-mime = "*"
sdl2 = { version = "*", features = ["ttf", "image", "gfx"] }
