[package]
name = "babushka-core"
version = "0.1.0"
edition = "2021"
publish = false

[dependencies]
byteorder = "=1.5.0"
bytes = "=1.12.1"
dispose = "=0.5.2"
futures = "=0.3.34"
jni = "=0.21.1"
redis = { version = "=1.8.0", features = ["aio", "tokio-comp"] }
signal-hook = "=0.3.18"
signal-hook-tokio = { version = "=0.3.1", features = ["futures-v0_3"] }
tokio = { version = "=1.54.1", features = ["rt", "net", "sync", "macros", "io-util", "time"] }
