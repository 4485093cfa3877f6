[package]
name = "btrbk_tui"
version = "2.8.0"
edition = "2021"
publish = false

[dependencies]
chrono = "=0.4.45"
dirs = "=7.0.0"
libc = "=0.2.191"
ncurses = "=5.101.0"
serde = { version = "1", features = ["derive"] }
serde_json = "1"
