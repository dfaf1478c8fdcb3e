[package]
name = "order_desk"
version = "0.1.0"
edition = "2021"
publish = false

[dependencies]
dashmap = "=6.2.1"
base64-stream = "=7.0.0"
actix-web = { version = "=4.18.1", default-features = false, features = ["macros"] }
actix-rt = "=2.15.0"
actix-cors = "=0.7.2"
sqlx = { version = "=0.8.6", default-features = false, features = ["runtime-tokio", "mysql", "chrono", "migrate"] }
jwt = "=0.16.0"
hmac = "=0.12.1"
sha2 = "=0.10.9"
serde = { version = "=1.0.229", features = ["derive"] }
futures = "=0.3.34"
dotenv = "=0.15.0"
simple_logger = "=5.2.0"
log = "=0.4.35"
derive-getters = "=0.5.0"
