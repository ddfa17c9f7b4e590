[package]
name = "rolly"
version = "0.1.0"
edition = "2021"
publish = false

[dependencies]
blake3 = { version = "1", default-features = false, features = ["std"] }
bytes = "1"
crossbeam-channel = "0.5"
http = "1"
monoio = "0.2"
pin-project-lite = "0.2"
plotters = { version = "0.3", default-features = false, features = ["svg_backend", "line_series", "all_series", "all_elements"] }
rand = "0.9"
reqwest = { version = "0.12", default-features = false }
serde = { version = "1", features = ["derive"] }
tokio = { version = "1", features = ["full"] }
toml = "0.8"
tower = { version = "0.5", features = ["util"] }
tracing = "0.1"
tracing-subscriber = { version = "0.3", features = ["env-filter", "registry", "json"] }
ureq = { version = "3", default-features = false }
uuid = { version = "1", features = ["v4"] }

[dev-dependencies]
opentelemetry-proto = { version = "0.29", default-features = false, features = ["gen-tonic-messages", "trace", "logs", "metrics"] }
prost = "0.13"
