[package]
name = "rua_flash"
version = "0.1.0"
edition = "2021"
publish = false

[dependencies]
flate2 = "=1.1.10"
lz4_flex = "=0.11.6"
lzma-rs = "=0.3.0"
num-bigint = "=0.4.8"
rand = "=0.8.8"
regex = "=1.13.1"
rsa = "=0.9.10"
sha1 = "=0.10.7"
sha2 = { version = "=0.10.9", features = ["oid"] }
zstd = "=0.13.3"
payload_dumper = "=0.8.4"
zip = "*"
serde = { version = "=1.0.229", features = ["derive"] }
serde_json = "=1.0.151"
ctrlc = "=3.5.2"
uuid = { version = "=1.27.0", features = ["v4"] }
tokio = { version = "=1.53.2", features = ["rt-multi-thread", "macros", "process", "time", "sync"] }
