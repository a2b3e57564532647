[package]
name = "csv2json"
version = "0.1.0"
edition = "2021"
publish = false

[dependencies]
actix-web = { version = "4", default-features = false, features = ["macros"] }
anyhow = "1"
bytes = "1"
csv = "1"
futures-core = "0.3"
serde = { version = "1", features = ["derive"] }
serde_json = "1"
sqlx = { version = "0.8", default-features = false, features = ["postgres", "runtime-tokio", "uuid", "json"] }
thiserror = "1"
tracing = "0.1"
tracing-actix-web = "0.7"
uuid = { version = "1", features = ["v4", "serde"] }
