[package]
name = "acervo"
version = "0.1.0"
edition = "2021"
publish = false

[dependencies]
aho-corasick = "1"
base64 = "0.22"
ignore = "0.4"
memchr = "2"
open = "5"
regex = "1"
serde = { version = "1", features = ["derive"] }
zip = { version = "2", default-features = false, features = ["deflate"] }
