[package]
name = "smtp_delivery"
version = "0.1.0"
edition = "2021"
publish = false

[dependencies]
rand = "=0.8.8"
mail-send = "=0.6.2"
mail-auth = "=0.13.3"
rustls = "=0.20.9"
smtp-proto = "=0.2.5"
tokio = { version = "=1.53.2", features = ["net", "rt", "time", "io-util"] }
tokio-rustls = "=0.26.6"
