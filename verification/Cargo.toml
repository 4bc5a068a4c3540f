[package]
name = "hosting_audit"
version = "0.1.0"
edition = "2021"
publish = false

[dependencies]
ammonia = "=4.2.4"
cld2 = "=1.0.2"
curl = "0.4"
difference = "=2.0.0"
encoding = "=0.2.33"
env_logger = "0.11"
flate2 = "=1.1.10"
log = "0.4"
rayon = "1"
rustc-serialize = "=0.3.25"
rustful = { version = "=0.9.0", default-features = false }
sha1 = "=0.11.0"
term = "1"
time = "0.1"
unicase = "1"
users = "=0.11.0"
uuid = { version = "=1.29.0", features = ["v4"] }
walkdir = "2"

[dev-dependencies]
regex = "1"
