[package]
name = "tbr"
version = "0.1.0"
edition = "2021"
publish = false

[dependencies]
unicode-width = "=0.1.14"
chardetng = "=0.1.17"
encoding_rs = "=0.8.44"
fancy-regex = "=0.20.0"
quick-xml = "=0.42.0"
lexical-sort = "=0.3.1"
anyhow = "=1.0.104"
rand = "=0.10.3"
open = "=5.4.5"
dirs = "=7.0.0"
clap = { version = "=4.6.7", features = ["derive"] }
zip = { version = "*", default-features = false, features = ["deflate"] }
