[package]
name = "stormnetboot"
version = "0.4.0"
edition = "2021"
publish = false

[dependencies]
anyhow = "1"
axum = { version = "0.8", features = ["ws"] }
chrono = "0.4"
clap = { version = "4", features = ["derive", "env"] }
ed25519-dalek = "2"
futures = "0.3"
hex = "0.4"
k8s-openapi = { version = "0.26", features = ["latest"] }
kube = { version = "2", default-features = false, features = ["client", "runtime", "derive"] }
reqwest = { version = "0.12", default-features = false, features = ["json"] }
schemars = "1"
serde = { version = "1", features = ["derive"] }
serde_json = "1"
sha2 = "0.10"
tokio = { version = "1", features = ["full"] }
tower-http = { version = "0.6", features = ["fs", "trace"] }
tracing = "0.1"
tracing-subscriber = { version = "0.3", features = ["env-filter"] }
uefi = { version = "*", features = ["alloc"] }
uefi-raw = "*"
