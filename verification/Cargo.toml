[package]
name = "confetti_box"
version = "0.1.0"
edition = "2021"
publish = false

[dependencies]
blake3 = "*"
chrono = "*"
file-format = "*"
lz4_flex = "*"
rand = "0.8"
rocket = { version = "0.5", features = ["json"] }
rocket_ws = "*"
serde = { version = "*", features = ["derive"] }
serde_json = "*"
toml = "*"
unidecode = "*"
urlencoding = "*"
uuid = { version = "*", features = ["v4"] }
