[package]
name = "social_store"
version = "0.1.0"
edition = "2021"
publish = false

[dependencies]
base64 = "*"
actix-web = "*"
chrono = "*"
colored = "*"
dotenv = "*"
futures = "*"
qstring = "*"
serde = { version = "*", features = ["derive"] }
serde_json = "*"
sqlx = { version = "*", features = ["postgres", "runtime-tokio"] }
tokio = { version = "*", features = ["macros", "rt-multi-thread", "time"] }
