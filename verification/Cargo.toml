[package]
name = "wlf"
version = "0.1.0"
edition = "2021"
publish = false

[dependencies]
flume = "*"
sqlparser = "*"
chrono = "*"
serde = { version = "*", features = ["derive"] }
serde_json = "*"
serde_yaml = "*"
java-properties = "*"
clap = { version = "*", features = ["derive"] }
tokio = { version = "*", features = ["full"] }
mysql_cdc = "*"
rskafka = "*"
redis = { version = "*", features = ["tokio-comp"] }
elasticsearch = "=8.19.0-alpha.1"
tracing = "*"
tracing-subscriber = "*"
async-trait = "*"
futures-util = "*"
thiserror = "*"
