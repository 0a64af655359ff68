[package]
name = "s3_proxy"
version = "0.1.0"
edition = "2021"
publish = false

[dependencies]
http = "=0.2.12"
hyper = { version = "=0.14.32", features = ["full"] }
axum = "=0.6.20"
tokio = { version = "=1.53.2", features = ["rt-multi-thread", "macros", "time"] }
serde = { version = "=1.0.229", features = ["derive"] }
aws-sdk-s3 = "=1.152.0"
aws-credential-types = "=1.3.0"
aws-types = "=1.6.0"
aws-smithy-async = "=1.3.0"
aws-smithy-runtime-api = "=1.19.0"
aws-sigv4 = { version = "=1.6.0", features = ["http0-compat"] }
uuid = { version = "=1.27.0", features = ["v4"] }
