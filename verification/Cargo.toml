[package]
name = "vibe_kanban"
version = "0.1.0"
edition = "2021"
publish = false

[dependencies]
shlex = "=1.3.0"
chrono = "=0.4.45"
sha2 = "=0.10.9"
serde = { version = "=1.0.229", features = ["derive"] }
serde_json = "=1.0.154"
uuid = { version = "=1.29.0", features = ["v4"] }
os_info = "=3.15.0"
mime_guess = "=2.0.5"
moka = { version = "=0.12.16", features = ["sync"] }
tempfile = "3"
directories = "*"
