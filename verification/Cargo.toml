[package]
name = "redoubtful"
version = "0.1.0"
edition = "2021"
publish = false

[dependencies]
base64 = "0.22"
capctl = "0.2"
clap = { version = "4", features = ["derive"] }
console = "0.15"
handlebars = "6"
hudsucker = { version = "0.24", default-features = false, features = ["rcgen-ca", "rustls-client"] }
hyper-rustls = { version = "0.27", default-features = false, features = ["http1", "ring", "tls12"] }
hyper-util = { version = "0.1", features = ["client-legacy", "http1"] }
libc = "0.2"
miette = { version = "7", features = ["fancy"] }
openssl-probe = "0.1"
rcgen = { version = "0.14", default-features = false, features = ["pem", "ring"] }
rustls = { version = "0.23", default-features = false, features = ["ring", "std", "tls12"] }
rustls-native-certs = "0.8"
serde = { version = "1", features = ["derive"] }
serde_json = "1"
tempfile = "3"
thiserror = "2"
tokio = { version = "1", features = ["full"] }
toml = "0.9"
tracing = "0.1"
tracing-subscriber = { version = "0.3", features = ["env-filter"] }
url = "2"
xdg = "3"
