[package]
name = "sitemapper"
version = "0.1.0"
edition = "2021"
publish = false

[dependencies]
regex = "*"
select = "*"
url = "*"
url-normalizer = "*"
reqwest = { version = "*", default-features = false, features = ["blocking"] }
chrono = "*"
console = "*"
xml-rs = "*"
