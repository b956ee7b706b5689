[package]
name = "scb_vka"
version = "0.1.0"
edition = "2021"
publish = false

[dependencies]
aead = "0.5"
chacha20poly1305 = "0.10"
argon2 = "0.5"
hkdf = "0.12"
hmac = "0.12"
sha3 = "0.10"
sha2 = "0.10"
subtle = "2.5"
zeroize = "1.8"
getrandom = "0.2"
hex = "0.4"
p256 = { version = "0.13", features = ["hash2curve"] }
elliptic-curve = { version = "0.13", features = ["hash2curve", "sec1"] }
libc = "0.2"
anyhow = "1"
clap = { version = "4", features = ["derive"] }
colored = "2"
chrono = { version = "0.4", default-features = false, features = ["clock"] }
rpassword = "7"
rustyline = "14"
tracing = "0.1"
tracing-subscriber = { version = "0.3", features = ["env-filter"] }
tss-esapi = "7.5"

[dev-dependencies]
tempfile = "3"
