[package]
name = "sflow"
version = "0.1.0"
edition = "2021"
publish = false

[dependencies]
regex = "1"
chrono = "0.4"
serde = { version = "1", features = ["derive"] }
serde_json = "1"
text_io = "*"
actix = "*"
actix-web = { version = "*", features = ["openssl"] }
actix-cors = "*"
diesel = { version = "*", features = ["postgres", "r2d2", "chrono"] }
dotenv = "*"
env_logger = "*"
futures = "*"
log = "*"
openssl = "*"
postgres = "*"
r2d2 = "*"
