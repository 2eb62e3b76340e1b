[package]
name = "slint-terminal"
version = "0.1.0"
edition = "2021"
publish = false

[dependencies]
alacritty_terminal = "*"
arboard = { version = "*", default-features = false }
cosmic-text = "*"
serde = { version = "1", features = ["derive"] }
slint = { version = "*", default-features = false, features = ["compat-1-2", "std"] }
toml = "*"
unicode-segmentation = "*"
unicode-width = "*"
