[package]
name = "sdb"
version = "0.1.0"
edition = "2021"
publish = false

[dependencies]
bincode = "1"
prettytable-rs = { version = "0.8", default-features = false }
regex = "1"
serde = { version = "1", features = ["derive"] }
sqlparser = "0.5"
