[package]
name = "sharify"
version = "0.1.0"
edition = "2021"
publish = false

[dependencies]
uuid = { version = "*", features = ["v7"] }
rand = "*"
sha2 = "*"
base64 = "*"
prost = "*"
serde = { version = "*", features = ["derive"] }
serde_json = "*"
tokio = { version = "*", default-features = false, features = ["sync", "rt", "time", "macros"] }
actix-web = { version = "*", default-features = false, features = ["macros"] }
actix-rt = "*"
actix-ws = "*"
actix-cors = "*"
actix-governor = "*"
reqwest = { version = "*", default-features = false, features = ["json"] }
chrono = "*"
dotenvy = "*"
env_logger = "*"
log = "*"
urlencoding = "*"

[dev-dependencies]
regex = "*"
