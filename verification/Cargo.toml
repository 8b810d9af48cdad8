[package]
name = "project_sorter"
version = "0.1.0"
edition = "2021"
publish = false

[dependencies]
chrono = "0.4"
libc = "0.2"
whoami = "1"
walkdir = "2"
notify = "6"
serde = { version = "1", features = ["derive"] }
