[package]
name = "course_assets"
version = "0.1.0"
edition = "2021"
publish = false

[dependencies]
htmlize = { version = "1", features = ["unescape"] }
regex = "1"
url = "2"
reqwest = { version = "0.12", default-features = false, features = ["json", "stream", "rustls-tls"] }
tokio = { version = "1", features = ["full"] }
futures = "0.3"
clap = { version = "4", features = ["derive", "env"] }
clap-verbosity-flag = { version = "3", features = ["tracing"] }
color-eyre = "0.6"
serde = { version = "1", features = ["derive"] }
serde_json = "1"
tracing = "0.1"
tracing-error = "0.2"
tracing-subscriber = { version = "0.3", features = ["env-filter"] }
