[package]
name = "drop_board"
version = "0.1.0"
edition = "2021"
publish = false

[dependencies]
sdl2 = { version = "*", features = ["mixer", "image"] }
