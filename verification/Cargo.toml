[package]
name = "rpmoci"
version = "0.1.0"
edition = "2021"
publish = false

[dependencies]
anyhow = "*"
chrono = "*"
clap = { version = "*", features = ["derive"] }
clap-verbosity-flag = "*"
env_logger = "*"
filetime = "*"
flate2 = "*"
hex = "*"
log = "*"
openssl = "*"
pathdiff = "*"
serde = { version = "*", features = ["derive"] }
serde_json = "*"
tar = "*"
tempfile = "*"
termcolor = "*"
toml = "*"
url = "*"
walkdir = "*"
xattr = "*"
zstd = "*"
