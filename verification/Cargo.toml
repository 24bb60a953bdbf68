[package]
name = "wrapper-rust"
version = "0.1.0"
edition = "2021"
publish = false

[dependencies]
regex = "1"
reqwest = { version = "0.12", default-features = false, features = ["blocking", "json", "rustls-tls"] }
md5 = "0.7"
hex = "0.4"
roxmltree = "0.20"
serde = { version = "1", features = ["derive"] }
serde_json = "1"
serde_urlencoded = "0.7"
axum = "0.8"
tokio = { version = "1", features = ["full"] }
tower = { version = "0.5", features = ["util"] }
tower-http = { version = "0.6", features = ["fs"] }
clap = { version = "4", features = ["derive"] }
num_cpus = "1"
include_dir = "0.7"
mime_guess = "2"
libc = "0.2"
libloading = "0.8"
thiserror = "2"
