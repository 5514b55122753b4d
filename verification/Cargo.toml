[package]
name = "tienda_auth"
version = "0.1.0"
edition = "2021"
publish = false

[dependencies]
bcrypt = "=0.19.3"
jsonwebtoken = { version = "=11.1.0", default-features = false, features = ["rust_crypto"] }
chrono = "=0.4.45"
sqlx = { version = "=0.7.4", default-features = false, features = ["mysql", "runtime-tokio-rustls"] }
tokio = { version = "=1.53.2", features = ["rt-multi-thread", "macros"] }
