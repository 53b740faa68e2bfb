[package]
name = "zsp"
version = "0.1.0"
edition = "2021"
publish = false

[dependencies]
substring = "*"
colored = "*"
termion = "*"
dyn-clone = "*"
typed-arena = "*"
json = "*"
libloading = "*"
reqwest = { version = "*", default-features = false, features = ["blocking"] }
