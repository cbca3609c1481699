[package]
name = "mathbib"
version = "0.1.0"
edition = "2021"
publish = false

[dependencies]
scraper = "*"
url = "1"
clap = "*"
clipboard = "*"
colored = "*"
reqwest = { version = "*", features = ["blocking"] }

[dev-dependencies]
regex = "*"
