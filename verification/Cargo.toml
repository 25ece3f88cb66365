[package]
name = "saffi-wtf"
version = "0.1.0"
edition = "2021"
publish = false

[dependencies]
comrak = { version = "*", default-features = false }
uuid = { version = "*", features = ["v4"] }
axum = "*"
clap = { version = "*", features = ["derive", "env"] }
maud = "*"
syntect = { version = "*", default-features = false, features = ["default-fancy"] }
tokio = { version = "*", features = ["rt-multi-thread", "macros", "net", "signal"] }
tower = "*"
tower-http = { version = "*", features = ["fs"] }
tracing = "*"
tracing-subscriber = { version = "*", features = ["env-filter"] }
dotenv = "*"
thiserror = "*"
camino = "*"
