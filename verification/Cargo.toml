[package]
name = "dhcp_template"
version = "0.1.0"
edition = "2021"
publish = false

[dependencies]
anyhow = "=1.0.104"
async-stream = "=0.3.6"
async-trait = "=0.1.92"
dhcproto = "=0.15.0"
envconfig = "=0.11.1"
futures-util = "=0.3.34"
k8s-openapi = { version = "=0.27.1", features = ["latest"] }
kube = { version = "=3.1.0", features = ["runtime", "derive", "client"] }
minijinja = "=2.24.0"
notify = "=8.2.0"
rand = "=0.10.3"
schemars = "=1.2.2"
serde_json = "=1.0.151"
serde = { version = "=1.0.229", features = ["derive"] }
serde_yaml = "=0.9.34"
thiserror = "=2.0.21"
tokio = { version = "=1.53.2", features = ["full"] }
tokio-stream = "=0.1.19"
