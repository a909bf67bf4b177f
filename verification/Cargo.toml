[package]
name = "wordle"
version = "0.1.0"
edition = "2021"
publish = false

[dependencies]
rand = "0.8"
serde = { version = "1", features = ["derive"] }
serde_json = "1"
structopt = "0.3"
atty = "0.2"
colored = "2"
crossterm = "0.25"
tui = { version = "0.19", default-features = false, features = ["crossterm"] }
unicode-width = "0.1"
rayon = "1"
indicatif = { version = "0.17", features = ["rayon"] }
