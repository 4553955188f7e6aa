[package]
name = "saucebottle"
version = "0.1.0"
edition = "2021"
publish = false

[dependencies]
regex = "1"
scraper = "*"
serde = { version = "1", features = ["derive"] }
serde_json = "1"
uuid = { version = "1", features = ["v4"] }
tokio = { version = "1", features = ["rt-multi-thread", "time"] }
notify = "*"
keyring-core = "*"
image = { version = "*", default-features = false, features = ["jpeg", "png", "gif", "webp", "bmp", "tiff", "ico", "tga"] }
reqwest = { version = "*", default-features = false, features = ["json", "multipart"] }
