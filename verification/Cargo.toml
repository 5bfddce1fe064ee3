[package]
name = "restorefiles"
version = "0.1.0"
edition = "2021"
publish = false

[dependencies]
chrono = "0.4"
eject = "0.1.1"
futures = "0.3"
rfd = { version = "0.15", default-features = false, features = ["xdg-portal", "tokio"] }
