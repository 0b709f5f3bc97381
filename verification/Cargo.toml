[package]
name = "szrsql-sql"
version = "0.1.0"
edition = "2021"
publish = false

[dependencies]
sqlparser = "=0.53.0"
serde = { version = "1", features = ["derive"] }
thiserror = "2"
