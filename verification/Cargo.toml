[package]
name = "dtn_mail"
version = "0.1.0"
edition = "2021"
publish = false

[dependencies]
log = "0.4"
mail-parser = "*"
mail-send = { version = "*", default-features = false, features = ["builder"] }
simple_logger = "*"
thiserror = "*"
tokio = { version = "1", features = ["rt-multi-thread", "macros", "sync", "io-util", "net"] }
