[package]
name = "prose_density"
version = "0.1.0"
edition = "2021"
publish = false

[dependencies]
unicode-width = "=0.1.14"
html5ever = "=0.39.0"
markup5ever_rcdom = "=0.39.0"
reqwest = { version = "=0.13.5", default-features = false, features = ["blocking"] }
