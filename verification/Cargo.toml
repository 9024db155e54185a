[package]
name = "flashcards"
version = "0.1.0"
edition = "2021"

[dependencies]
chrono = "*"
crossterm = "*"
rand = "0.8"
rusqlite = { version = "*", features = ["bundled", "chrono"] }
