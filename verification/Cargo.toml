[package]
name = "ape_dts"
version = "0.1.0"
edition = "2021"
publish = false

[dependencies]
chrono = "0.4"
regex = "1"
mysql-binlog-connector-rust = "*"
sqlx = { version = "=0.8.6", default-features = false, features = ["mysql", "postgres", "runtime-tokio", "chrono", "bigdecimal", "json"] }
tokio = { version = "1", features = ["rt-multi-thread", "macros"] }
anyhow = "1"
async-trait = "0.1"
serde_json = "1"
