[package]
name = "heimlern"
version = "0.1.0"
edition = "2021"
publish = false

[dependencies]
rand = "0.8"
time = { version = "0.3", features = ["formatting"] }
serde = { version = "1", features = ["derive"] }
serde_json = "1"
clap = { version = "4", features = ["derive"] }
ureq = { version = "2", features = ["json"] }
url = "2"
