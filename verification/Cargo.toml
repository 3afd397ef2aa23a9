[package]
name = "rustscan"
version = "0.1.0"
edition = "2021"
publish = false

[dependencies]
cidr-utils = "=0.7.1"
gcd = "=2.3.0"
rand = "=0.8.8"
blackrock2 = "=0.1.2"
rlimit = "=0.11.0"
hickory-resolver = { version = "=0.24.4", features = ["dns-over-rustls"] }
clap = { version = "4", features = ["derive"] }
serde = "1"
serde_derive = "1"
toml = "*"
dirs = "*"
anyhow = "*"
subprocess = "*"
shell-words = "*"
text_placeholder = { version = "*", features = ["struct_context"] }
async-std = "*"
futures = "*"
colored = "*"
colorful = "*"
ansi_term = "*"
env_logger = "*"
log = "*"
