[package]
name = "order_coordination"
version = "0.1.0"
edition = "2021"
publish = false

[dependencies]
actix-web = "4"
mongodb = "2"
rdkafka = "0.36"
reqwest = { version = "0.11", default-features = false, features = ["json"] }
serde = { version = "1", features = ["derive"] }
serde_json = "1"
tokio = { version = "1", features = ["rt-multi-thread", "macros", "time"] }
uuid = { version = "1", features = ["v4", "serde"] }
