[package]
name = "rusty_scrapper"
version = "0.1.0"
edition = "2021"
publish = false

[dependencies]
scraper = "*"
rand = "*"
tokio = { version = "*", features = ["rt-multi-thread", "macros", "time"] }
tokio-util = "*"
futures = "*"
reqwest = { version = "*", default-features = false }
ctrlc = "*"
pyo3 = "*"

[dev-dependencies]
regex = "*"
