[package]
name = "kubiq"
version = "0.1.0"
edition = "2021"
publish = false

[dependencies]
serde_json = "*"
serde_yaml = "*"
clap = { version = "*", features = ["derive"] }
kube = { version = "*", default-features = false, features = ["client", "rustls-tls"] }
k8s-openapi = { version = "*", features = ["latest"] }
tokio = { version = "*", default-features = false, features = ["rt-multi-thread", "time"] }
