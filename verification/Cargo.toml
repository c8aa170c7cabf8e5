[package]
name = "alert_service"
version = "0.1.0"
edition = "2021"
publish = false

[dependencies]
actix-web = "4"
postgres = "0.19"
serde = { version = "1", features = ["derive"] }
