[package]
name = "on_exit_hook_waybar"
version = "0.1.0"
edition = "2021"
publish = false

[dependencies]
chrono = "*"
dirs = "*"
libc = "*"
log = "*"
procfs = "*"
serde = { version = "*", features = ["derive"] }
serde_json = "*"
simplelog = "*"
thiserror = "*"
