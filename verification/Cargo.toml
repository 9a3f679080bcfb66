[package]
name = "visual_search"
version = "0.1.0"
edition = "2021"
publish = false

[dependencies]
actix-web = { version = "*", default-features = false, features = ["macros"] }
actix-web-httpauth = "*"
bytes = "*"
clap = "*"
enum_dispatch = "*"
image = "*"
reqwest = { version = "*", default-features = false, features = ["blocking"] }
schemars = "*"
serde = { version = "*", features = ["derive"] }
serde_json = "*"
serde_with = "*"
toml = "*"
tract-onnx = "*"
url = { version = "*", features = ["serde"] }
