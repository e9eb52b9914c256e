[package]
name = "simbolmudah"
version = "0.1.0"
edition = "2021"
publish = false

[dependencies]
fst = "0.4"
serde = { version = "1", features = ["derive"] }
serde_json = "1"
quick-xml = { version = "*", features = ["serialize"] }
brotli-decompressor = "*"

[dev-dependencies]
regex = "1"
