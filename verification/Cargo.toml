[package]
name = "smackup"
version = "0.1.0"
edition = "2021"
publish = false

[dependencies]
anyhow = "1"
axum = { version = "0.7", features = ["multipart"] }
chrono = "0.4"
dotenv = "0.15"
futures-util = "0.3"
mime_guess = "2"
minijinja = "2"
rand = "0.8"
serde = { version = "1", features = ["derive"] }
tokio = { version = "1", features = ["full"] }
