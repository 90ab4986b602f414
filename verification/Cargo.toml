[package]
name = "texture_manager"
version = "0.1.0"
edition = "2021"
publish = false

[dependencies]
image = { version = "*", default-features = false, features = ["png"] }
plist = "*"
serde = { version = "*", features = ["derive"] }
serde_json = "*"
sha2 = "*"
base64 = "*"
regex = "*"
rand = "*"
zip = { version = "*", default-features = false, features = ["deflate"] }
