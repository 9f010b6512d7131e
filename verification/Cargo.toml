[package]
name = "octgn_cards"
version = "0.1.0"
edition = "2021"
publish = false

[dependencies]
bitvec = "1"
serde = { version = "1", features = ["derive"] }
serde-xml-rs = "0.6"
