[package]
name = "mf2tar"
version = "0.1.0"
edition = "2021"
publish = false

[dependencies]
digest = "0.10"
sha1 = "0.10"
flate2 = "1"
percent-encoding = "2"
tar = { version = "0.4", default-features = false }
getopts = "0.2"
