[package]
name = "lifeboard"
version = "0.1.0"
edition = "2021"
publish = false

[dependencies]
rusqlite = "*"
cursive = { version = "*", default-features = false, features = ["pancurses-backend"] }
