[package]
name = "libpeers"
version = "0.1.0"
edition = "2021"
publish = false

[dependencies]
actix = "0.13"
tokio = { version = "1", features = ["net", "rt", "macros", "io-util", "process"] }
tokio-util = { version = "0.7", features = ["codec"] }
tokio-serde-cbor = "*"
futures = "0.3"
futures-util = "0.3"
failure = "0.1"
serde = "1"
serde_derive = "1"
