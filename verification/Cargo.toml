[package]
name = "drop_farm"
version = "0.1.0"
edition = "2021"
publish = false

[dependencies]
dialoguer = "*"
futures-util = "0.3"
indicatif = "*"
once_cell = "1"
serde_json = "1"
tokio = { version = "1", features = ["full"] }
tokio-tungstenite = { version = "*", features = ["native-tls"] }
tracing = "0.1"
tracing-appender = "0.2"
tracing-subscriber = "0.3"
twitch-gql-rs = "*"
