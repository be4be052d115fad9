[package]
name = "stash_server"
version = "0.1.0"
edition = "2021"
publish = false

[dependencies]
anyhow = "1"
async-std = { version = "1", features = ["attributes"] }
chrono = "0.4"
ctrlc = "3"
fs2 = "0.4"
futures = "0.3"
lazy_static = "1"
openssl = "0.10"
sha3 = "0.10"
sqlx = { version = "0.6", default-features = false, features = ["runtime-async-std-native-tls", "mysql"] }
