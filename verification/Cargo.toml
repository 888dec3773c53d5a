[package]
name = "htldoc"
version = "0.1.0"
edition = "2021"
publish = false

[dependencies]
chrono = { version = "0.4", default-features = false, features = ["alloc"] }
clap = { version = "4", features = ["cargo"] }
cmd_lib = "1"
git2 = { version = "*", default-features = false }
serde = { version = "1", features = ["derive"] }
serde_json = "1"
sha2 = "0.10"
json = "0.12"
pathdiff = "*"
