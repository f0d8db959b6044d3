[package]
name = "orpipe"
version = "0.1.0"
edition = "2021"
publish = false

[dependencies]
structopt = "*"
tokio = { version = "*", features = ["net", "io-util", "rt-multi-thread", "macros"] }
