[package]
name = "orpheus_buddy"
version = "0.1.0"
edition = "2021"
publish = false

[dependencies]
url = "2"
serde_json = "1"
reqwest = { version = "0.12", default-features = false, features = ["json"] }
tokio = { version = "1", features = ["rt-multi-thread", "time", "macros"] }
dirs = "*"
dotenvy = "0.15"
lazy_static = "1"
git2 = { version = "*", default-features = false }
image = { version = "0.25", default-features = false, features = ["png"] }
