[package]
name = "metallb_v6_prefix_helper"
version = "0.1.0"
edition = "2021"
publish = false

[dependencies]
async-trait = "*"
clap = { version = "*", features = ["derive", "env"] }
env_logger = "*"
ip_rfc = "*"
ipnet = "*"
k8s-openapi = { version = "*", features = ["latest"] }
kube = { version = "*", features = ["client", "derive", "rustls-tls"] }
log = "*"
network-interface = "*"
schemars = "*"
serde = { version = "*", features = ["derive"] }
serde_json = "*"
thiserror = "*"
tokio = { version = "*", features = ["macros", "rt-multi-thread", "time"] }
