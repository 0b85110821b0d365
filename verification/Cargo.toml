[package]
name = "avro-schema-registry"
version = "0.1.0"
edition = "2021"
publish = false

[dependencies]
avro-rs = "0.13"
sha2 = "0.9"
base64 = "0.13"
actix-web = { version = "4", default-features = false, features = ["macros"] }
actix-web-prom = "*"
diesel = { version = "2", default-features = false, features = ["postgres", "r2d2", "chrono"] }
chrono = "0.4"
serde = { version = "1", features = ["derive"] }
serde_json = "1"
log = "0.4"
env_logger = "*"
futures = "0.3"
sentry = { version = "*", default-features = false, features = ["panic"] }
