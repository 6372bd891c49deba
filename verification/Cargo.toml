[package]
name = "tcp_handler"
version = "0.6.0"
edition = "2021"
publish = false

[dependencies]
aes-gcm = "=0.10.3"
aead = "=0.5.2"
flate2 = "=1.1.10"
rsa = { version = "=0.9.10", features = ["sha2"] }
sha2 = "=0.10.9"
rand = "=0.8.8"
bytes = "=1.12.1"
tokio = { version = "=1.54.1", features = ["io-util", "net", "rt", "rt-multi-thread", "macros", "sync"] }
once_cell = "=1.21.4"
async-trait = "=0.1.92"
thiserror = "=1.0.69"
serde = { version = "1", features = ["derive"] }
