[package]
name = "kay"
version = "0.5.0"
edition = "2021"
publish = false

[dependencies]
byteorder = "1"
chunky = "*"
compact = "*"
serde = "1"
tungstenite = "*"
url = "*"
