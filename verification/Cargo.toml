[package]
name = "h5i_share"
version = "0.1.0"
edition = "2021"
publish = false

[dependencies]
chrono = "0.4"
libc = "0.2"
tokio = { version = "1", features = ["net", "io-util", "time", "rt", "sync", "macros"] }
iroh = "*"
