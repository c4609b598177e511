[package]
name = "varlog"
version = "0.1.0"
edition = "2021"
publish = false

[dependencies]
regex = "1"
chrono = "0.4"
nanoid = "0.4"
actix-web = { version = "4", default-features = false, features = ["macros"] }
serde = { version = "1", features = ["derive"] }
jwt = "0.16"
hmac = "0.12"
sha2 = "0.10"
reqwest = { version = "0.11", default-features = false, features = ["json"] }
dotenv = "0.15"
simplelog = "0.12"
log = "0.4"
futures-util = "0.3"
anyhow = "1"
