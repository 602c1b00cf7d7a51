[package]
name = "logseek"
version = "0.1.0"
edition = "2021"
publish = false

[dependencies]
globset = "=0.4.21"
regex = "=1.13.1"
fancy-regex = "=0.14.0"
url = "=2.5.8"
chrono = { version = "=0.4.45", default-features = false, features = ["std", "clock"] }
chrono-tz = "=0.10.4"
chardetng = "=0.1.17"
encoding_rs = "=0.8.44"
urlencoding = "=2.1.3"
uuid = { version = "=1.29.0", features = ["v4"] }
once_cell = "=1.21.4"
grep-searcher = "=0.1.17"
grep-regex = "=0.1.14"
flate2 = "=1.1.10"
num_cpus = "1"
serde = { version = "1", features = ["derive"] }
serde_json = "=1.0.154"
tokio = { version = "1", default-features = false, features = ["io-util", "rt"] }
