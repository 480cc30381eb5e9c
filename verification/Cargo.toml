[package]
name = "migration_rs"
version = "0.1.0"
edition = "2021"
publish = false

[dependencies]
actix-web = { version = "3", default-features = false }
actix-web-httpauth = "0.5"
base64 = "=0.13.1"
chrono = { version = "=0.4.45", default-features = false, features = ["std"] }
futures = "=0.3.34"
grpcio = "=0.6.0"
hex = "=0.4.3"
jsonwebtoken = "=7.2.0"
mysql_async = "=0.23.1"
protobuf = "=2.28.0"
pyo3 = "=0.13.2"
regex = "=1.13.1"
serde = { version = "=1.0.229", features = ["derive"] }
serde_json = "=1.0.154"
slog = "=2.8.2"
slog-scope = "=4.4.1"
structopt = "=0.3.26"
tokio = { version = "=0.2.25", features = ["macros", "rt-threaded"] }
url = "=2.5.8"
uuid = { version = "=0.8.2", features = ["v4"] }
