[package]
name = "aws_auth"
version = "0.1.0"
edition = "2021"
publish = false

[dependencies]
base64 = "0.22"
roxmltree = "*"
scraper = "*"
reqwest = { version = "*", default-features = false, features = ["json", "rustls-tls"] }
tokio = { version = "*", features = ["rt-multi-thread", "macros"] }
serde = { version = "*", features = ["derive"] }
aws-config = "*"
aws-sdk-sts = "*"
url = "*"
config = "*"
dirs = "*"
rpassword = "*"
colored = "*"
env_logger = "*"
log = "*"
anyhow = "*"
