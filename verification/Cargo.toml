[package]
name = "axum-frontend"
version = "0.1.0"
edition = "2021"
publish = false

[dependencies]
axum = "0.8"
axum-reverse-proxy = "*"
libc = "0.2"
rust-embed = { version = "8", features = ["mime-guess"] }
tokio = { version = "1", features = ["process", "net", "time", "macros", "rt-multi-thread"] }
tower-http = { version = "0.6", features = ["fs"] }

[dev-dependencies]
tower = { version = "0.5", features = ["util"] }
