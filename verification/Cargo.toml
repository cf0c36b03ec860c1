[package]
name = "enterance"
version = "0.1.0"
edition = "2021"
publish = false

[dependencies]
sha2 = "0.10"
serde = { version = "1", features = ["derive"] }
serde_json = "1"
toml = "0.8"
anyhow = "1"
tokio = { version = "1", features = ["rt-multi-thread", "macros"] }
ureq = { version = "3", features = ["json", "cookies"] }
termion = "4"
