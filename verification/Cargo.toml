[package]
name = "site_watch"
version = "0.1.0"
edition = "2021"
publish = false

[dependencies]
is-url = "*"
sqlite3 = "*"
reqwest = { version = "*", default-features = false, features = ["blocking"] }
checkssl = "*"
