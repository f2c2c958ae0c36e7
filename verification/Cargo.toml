[package]
name = "speedtracker"
version = "0.1.0"
edition = "2021"
publish = false

[dependencies]
chrono = "*"
confy = "*"
faccess = "*"
flexi_logger = "*"
log = "*"
regex = "*"
serde = { version = "*", features = ["derive"] }
serde_json = "*"
