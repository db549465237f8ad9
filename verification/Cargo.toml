[package]
name = "ohara"
version = "0.1.0"
edition = "2021"
publish = false

[dependencies]
async-trait = "=0.1.92"
axum = "=0.8.9"
chrono = "=0.4.45"
fastembed = { version = "=7.5.0", default-features = false, features = ["ort-load-dynamic", "hf-hub-rustls-tls"] }
fs2 = "=0.4.3"
html2md = "=0.2.17"
lbug = "=0.22.1"
quick-xml = "=0.38.4"
readability = { version = "=0.3.0", default-features = false }
redis = { version = "=0.32.7", features = ["tokio-comp"] }
reqwest = { version = "=0.12.28", default-features = false, features = ["json", "rustls-tls"] }
rusqlite = { version = "=0.41.1", features = ["bundled"] }
serde = { version = "=1.0.229", features = ["derive"] }
serde_json = "=1.0.154"
serde_yaml_ng = "=0.10.0"
sha2 = "=0.10.9"
strsim = "=0.11.1"
subtle = "=2.6.1"
thiserror = "=2.0.21"
tokio = { version = "=1.54.1", features = ["full"] }
toml = "=1.1.8"
unicode-normalization = "=0.1.26"
url = "=2.5.8"
uuid = { version = "=1.29.0", features = ["v7"] }
whatlang = "=0.18.0"
