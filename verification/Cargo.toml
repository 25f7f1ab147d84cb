[package]
name = "hyprtrace"
version = "0.1.0"
edition = "2021"
publish = false

[dependencies]
anyhow = "1"
async-trait = "0.1"
axum = "0.7"
chrono = "0.4"
ctrlc = "3"
directories = "5"
env_logger = "0.11"
evdev = "0.13"
futures = "0.3"
hyprland = "=0.4.0-beta.2"
libc = "0.2"
log = "0.4"
reqwest = { version = "0.12", default-features = false, features = ["json", "stream"] }
rusqlite = "0.32"
serde = { version = "1", features = ["derive"] }
serde_json = "1"
tokio = { version = "1", features = ["full"] }
tokio-stream = "0.1"
toml = "0.8"
tower-http = { version = "0.5", features = ["fs", "cors"] }
zbus = "4"
