[package]
name = "photostore"
version = "0.1.0"
edition = "2021"
publish = false

[dependencies]
image = "0.24"
md-5 = "0.10"
rand = "0.8"
base64 = "0.22"
serde = { version = "1", features = ["derive"] }
serde_json = "1"
walkdir = "2"
futures = "0.3"
actix-web = { version = "4", default-features = false, features = ["macros"] }
actix-multipart = "0.6"
