[package]
name = "pop_launcher_toggl"
version = "0.1.0"
edition = "2021"
publish = false

[dependencies]
base64 = "0.22"
serde = { version = "1", features = ["derive"] }
serde_json = "1"
time = { version = "0.3", features = ["formatting", "parsing", "macros", "local-offset"] }
unicode-general-category = "1"
unicode-normalization = "0.1"
ureq = { version = "2", features = ["json"] }
