[package]
name = "weather_service"
version = "0.1.0"
edition = "2021"
publish = false

[dependencies]
actix-web = { version = "4", default-features = false, features = ["macros"] }
actix-cors = "*"
reqwest = { version = "*", default-features = false }
