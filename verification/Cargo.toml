[package]
name = "pluvia"
version = "0.1.0"
edition = "2021"
publish = false

[dependencies]
encoding_rs = "=0.8.44"
regex = "=1.13.1"
zip = { version = "=2.6.1", default-features = false, features = ["deflate"] }
serde = { version = "=1.0.229", features = ["derive"] }
serde_json = "=1.0.154"
thiserror = "=1.0.69"
tokio = { version = "=1.54.1", features = ["rt-multi-thread", "net", "io-util", "macros", "sync", "time"] }
chrono = "=0.4.45"
clap = { version = "=4.6.7", features = ["derive"] }
libc = "0.2"
zbus = "5"
reqwest = { version = "0.12", features = ["blocking"] }
