[package]
name = "payq"
version = "0.1.0"
edition = "2021"
publish = false

[dependencies]
chrono = "=0.4.45"
clap = { version = "=4.6.7", features = ["derive"] }
dotenv = "=0.15.0"
fake = { version = "=5.1.0", features = ["derive"] }
indicatif = "=0.18.6"
lazy_static = "=1.5.1"
postgres = "=0.19.14"
r2d2 = "=0.8.10"
r2d2_postgres = "=0.18.2"
tokio = { version = "=1.53.2", features = ["full"] }
tokio-postgres = { version = "=0.7.18", features = ["with-chrono-0_4"] }
