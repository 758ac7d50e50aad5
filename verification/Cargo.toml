[package]
name = "stm_html"
version = "0.1.0"
edition = "2021"
publish = false

[dependencies]
futures = "0.3"
hyper = { version = "0.14", features = ["client", "http1", "http2", "tcp", "stream"] }
hyper-rustls = "0.23"
lambda_runtime = "0.3"
rusoto_core = { version = "0.48", default-features = false, features = ["rustls"] }
rusoto_signature = "0.48"
serde = { version = "1", features = ["derive"] }
serde_json = "1"
tera = { version = "1", default-features = false }
tokio = { version = "1", features = ["macros", "rt-multi-thread"] }
tracing = "0.1"

[dev-dependencies]
regex = "1"
