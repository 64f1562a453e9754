[package]
name = "quotefault"
version = "0.1.0"
edition = "2021"
publish = false

[dependencies]
sha3 = "=0.10.9"
log = "=0.4.34"
actix-web = { version = "=4.18.1", default-features = false }
sqlx = { version = "=0.7.4", default-features = false, features = ["postgres", "runtime-tokio"] }
serde = { version = "=1.0.229", features = ["derive"] }
