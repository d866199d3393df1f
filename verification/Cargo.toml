[package]
name = "dungeon"
version = "0.1.0"
edition = "2021"
publish = false

[dependencies]
rand = "0.9"
serde = { version = "1", features = ["derive"] }
serde_json = "1"
tungstenite = "*"
bcrypt = "*"
uuid = { version = "1", features = ["v4"] }
chrono = "0.4"
actix-web = "4"
actix-cors = "*"
axum = "*"
tokio = { version = "1", features = ["full"] }
tower-http = { version = "*", features = ["cors"] }
reqwest = { version = "*", default-features = false, features = ["json"] }
colored = "*"
dotenvy = "0.15"
once_cell = "1"
