[package]
name = "image_thumbs"
version = "0.1.0"
edition = "2021"
publish = false

[dependencies]
image = { version = "*", default-features = false, features = ["jpeg", "png"] }
object_store = { version = "*", features = ["gcp", "aws"] }
tokio = { version = "*", features = ["sync"] }
config = "*"
serde = { version = "*", features = ["derive"] }
mime = "*"
thiserror = "*"
