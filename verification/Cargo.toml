[package]
name = "tmux_session_picker"
version = "0.1.0"
edition = "2021"
publish = false

[dependencies]
libc = "0.2"
toml = { version = "0.8", features = ["preserve_order"] }
