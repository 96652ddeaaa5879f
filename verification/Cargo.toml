[package]
name = "log_writer"
version = "0.1.0"
edition = "2021"
publish = false

[dependencies]
chrono = { version = "0.4", default-features = false, features = ["clock", "std"] }
libc = "0.2"
log = "0.4"
serde = { version = "1", features = ["derive"] }
