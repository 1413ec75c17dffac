[package]
name = "control_cards"
version = "0.1.0"
edition = "2021"
publish = false

[dependencies]
bcrypt = "=0.19.3"
chrono = "=0.4.45"
jsonwebtoken = { version = "=11.1.0", features = ["rust_crypto"] }
once_cell = "=1.21.4"
serde = { version = "=1.0.229", features = ["derive"] }
serde_json = "=1.0.151"
sqlx = { version = "=0.9.0", features = ["runtime-tokio", "sqlite"], default-features = false }
tokio = { version = "=1.53.2", features = ["rt-multi-thread"] }
whoami = "=2.1.3"
