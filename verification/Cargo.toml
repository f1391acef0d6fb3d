[package]
name = "arca"
version = "0.1.0"
edition = "2021"
publish = false

[dependencies]
unicode-normalization = "0.1"
sha2 = "0.10"
percent-encoding = "2"
globset = "0.4"
zip = "=9.0.0-pre2"
tar = "0.4"
flate2 = "1"
bzip2 = "0.5"
xz2 = "0.1"
tempfile = "3"
walkdir = "2"
filetime = "0.2"
clap = { version = "4", features = ["derive"] }
anyhow = "1"
rpassword = "7"
serde = { version = "1", features = ["derive"] }
serde_json = "1"
zeroize = "1"
thiserror = "2"
