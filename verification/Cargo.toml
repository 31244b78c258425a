[package]
name = "certreq"
version = "0.1.0"
edition = "2021"
publish = false

[dependencies]
rsa = "=0.9.10"
p256 = "=0.13.2"
sha2 = { version = "=0.10.9", features = ["oid"] }
signature = "=2.2.0"
der = "=0.7.10"
pkcs8 = "=0.10.2"
x509-cert = "=0.2.5"

[dev-dependencies]
rand = "=0.8.8"
spki = "=0.7.3"
