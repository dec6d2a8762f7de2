[package]
name = "exam_ledger"
version = "0.1.0"
edition = "2021"
publish = false

[dependencies]
actix-cors = "0.7"
actix-multipart = "0.6"
actix-session = { version = "0.9", features = ["redis-rs-session"] }
actix-web = { version = "4", features = ["rustls"] }
base64 = "0.21"
bcrypt = "0.15"
calamine = "0.24"
chrono = { version = "0.4", features = ["serde"] }
dotenv = "0.15"
futures-util = "0.3"
hex = "0.4"
rand = "0.8"
rustls = "0.20"
rustls-pemfile = "1"
serde = { version = "1", features = ["derive"] }
sha2 = "0.10"
sqlx = { version = "0.7", features = ["mysql", "runtime-tokio", "chrono"] }
xlsxwriter = "0.6"
