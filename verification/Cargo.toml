[package]
name = "gourcers"
version = "0.1.0"
edition = "2021"
publish = false

[dependencies]
clap = { version = "=4.6.7", features = ["derive", "env"] }
color-eyre = "=0.6.5"
console = "=0.15.11"
diacritics = "=0.2.2"
dialoguer = "=0.11.0"
dotenvy = "=0.15.7"
emojis = "=0.9.1"
indicatif = "=0.17.11"
reqwest = { version = "=0.11.27", default-features = false, features = ["blocking", "json", "rustls-tls"] }
serde = { version = "=1.0.229", features = ["derive"] }
serde_json = "=1.0.154"
tap = "=1.0.1"
temp-dir = "=0.1.16"
thiserror = "=1.0.69"
tracing = "=0.1.44"
tracing-error = "=0.2.1"
tracing-subscriber = { version = "=0.3.23", features = ["env-filter"] }

[dev-dependencies]
lazy-regex = "*"
