[package]
name = "realm_core"
version = "0.1.0"
edition = "2021"
publish = false

[dependencies]
uuid = { version = "*", features = ["v4"] }
actix-web = "*"
tokio = { version = "*", features = ["rt-multi-thread", "macros", "net", "time", "io-util", "sync"] }
serde = { version = "*", features = ["derive"] }
serde_json = "*"
log = "*"
dotenvy = "*"
futures = "*"
