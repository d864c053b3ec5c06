[package]
name = "mangalike"
version = "0.1.0"
edition = "2021"
publish = false

[dependencies]
scraper = "*"
clap = "4"
color-eyre = "0.6"
epub-builder = "*"
indicatif = "0.17"
reqwest = { version = "0.12", features = ["blocking"] }
