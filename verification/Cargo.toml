[package]
name = "wax"
version = "0.1.0"
edition = "2021"
publish = false

[dependencies]
bzip2 = "=0.4.4"
clap = { version = "=4.6.7", features = ["derive"] }
clap_complete = "=4.6.11"
console = "=0.15.11"
directories = "=5.0.1"
dunce = "=1.0.5"
flate2 = "=1.1.10"
futures = "=0.3.34"
indicatif = "=0.17.11"
inquire = "=0.7.5"
libc = "=0.2.191"
nix = { version = "=0.29.0", features = ["user"] }
quick-xml = "=0.37.5"
regex = "=1.13.1"
reqwest = { version = "=0.12.28", default-features = false, features = ["json", "rustls-tls", "stream"] }
serde = { version = "=1.0.229", features = ["derive"] }
serde_json = "=1.0.154"
serde_yaml = "=0.9.34"
sha2 = "=0.10.9"
tar = "=0.4.46"
tempfile = "=3.27.0"
tokio = { version = "=1.54.1", features = ["full"] }
toml = "=0.8.23"
tracing = "=0.1.44"
tracing-subscriber = "=0.3.23"
urlencoding = "=2.1.3"
xz2 = "=0.1.7"
zip = { version = "=2.6.1", default-features = false, features = ["deflate"] }
zstd = "=0.13.4"
