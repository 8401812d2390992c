[package]
name = "query_engine"
version = "0.1.0"
edition = "2021"
publish = false

[dependencies]
prost = "=0.14.4"
prost-types = "=0.14.4"
serde = { version = "=1.0.229", features = ["derive"] }
serde_json = "=1.0.154"
anyhow = "=1.0.104"
clap = { version = "=4.6.7", features = ["derive"] }
which = "=8.0.6"
libc = "=0.2.191"
log = "=0.4.34"
async-trait = "=0.1.92"
md5 = "*"
