[package]
name = "r-boot"
version = "0.1.0"
edition = "2021"
publish = false

[dependencies]
uefi = { version = "=0.41.0", features = ["alloc"] }
log = "=0.4.35"
sha2 = { version = "=0.10.9", features = ["oid"] }
cms = "=0.2.3"
der = "=0.7.10"
rsa = "=0.9.10"
rcgen = { version = "=0.14.10", default-features = false, features = ["pem"] }
rand = "=0.8.8"
signature = "=2.2.0"
time = "=0.3.55"
x509-parser = "=0.18.1"
libc = "=0.2.191"
