[package]
name = "pulse_agent"
version = "0.1.0"
edition = "2021"
publish = false

[dependencies]
serde_json = "=1.0.151"
toml = "=1.1.6"
chrono = "=0.4.45"
uuid = { version = "=1.27.0", features = ["v4"] }
serde = { version = "*", features = ["derive"] }
tokio = { version = "*", features = ["full"] }
reqwest = { version = "*", default-features = false }
clap = { version = "*", features = ["derive"] }
rustls = "*"
tokio-tungstenite = "*"
futures-util = "*"
snmp2 = { version = "*", features = ["v3"] }
lettre = { version = "*", default-features = false, features = ["smtp-transport"] }
mysql_async = { version = "*", default-features = false, features = ["default-rustls-no-provider"] }
tiberius = { version = "*", default-features = false }
tokio-postgres = "*"
tokio-postgres-rustls = "*"
tokio-util = { version = "*", features = ["compat"] }
elytra-ping = "*"
comfy-table = "*"
inline_colorization = "*"
tracing = "*"
tracing-subscriber = { version = "*", features = ["env-filter"] }
