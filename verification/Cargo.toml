[package]
name = "illyria"
version = "0.1.0"
edition = "2021"
publish = false

[dependencies]
crc = "1"
embedded-hal = "0.2"
nb = "1"
postcard = "1"
serde = { version = "1", features = ["derive"] }
