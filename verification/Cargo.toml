[package]
name = "bobby"
version = "0.1.0"
edition = "2021"
publish = false

[dependencies]
chrono = "0.4"
md5 = "0.7"
qrcode = { version = "0.14", default-features = false, features = ["svg"] }
image = { version = "0.25", default-features = false, features = ["png"] }
serde = { version = "1", features = ["derive"] }
serde_json = "1"
opentelemetry = "*"
tokio = { version = "1", features = ["rt", "macros", "time", "sync"] }
futures = "0.3"
moka = { version = "0.12", features = ["future"] }
async-trait = "0.1"
thiserror = "2"
deadpool-redis = "*"
