[package]
name = "gsyncing"
version = "0.1.0"
edition = "2021"
publish = false

[dependencies]
sha2 = "=0.10.9"
hex = "=0.4.3"
chrono = "=0.4.45"
globset = "=0.4.21"
uuid = { version = "=1.29.0", features = ["v4"] }
dirs = "=5.0.1"
serde = { version = "=1.0.229", features = ["derive"] }
serde_json = "=1.0.154"
tokio = { version = "=1.54.1", features = ["full"] }
tokio-util = "=0.7.20"
futures = "=0.3.34"
async-trait = "=0.1.92"
walkdir = "=2.5.0"
tracing = "=0.1.44"
tracing-subscriber = { version = "=0.3.23", features = ["env-filter"] }
thiserror = "=1.0.69"
anyhow = "=1.0.104"
reqwest = { version = "=0.12.28", default-features = false }
reqwest_dav = { version = "=0.1.15", default-features = false }
aws-sdk-s3 = { version = "=1.157.0", default-features = false, features = ["rt-tokio"] }
aws-credential-types = { version = "=1.3.1", default-features = false }
notify-debouncer-full = "=0.7.0"
sysinfo = "=0.32.1"
getrandom = "=0.4.3"
windows = { version = "=0.57.0", features = ["Win32_Foundation", "Win32_Security", "Win32_Security_Cryptography"] }

[dev-dependencies]
tempfile = "=3.27.0"
