[package]
name = "enzo"
version = "0.1.0"
edition = "2021"
publish = false

[dependencies]
ansi_term = "0.12"
clap = "2"
crossterm = { version = "0.17", features = ["event-stream"] }
dirs = "3"
futures = "0.3"
git2 = "0.13"
handlebars = "3"
indexmap = { version = "1", features = ["serde-1"] }
read_input = "*"
serde = { version = "1", features = ["derive"] }
serde_yaml = "0.8"
structopt = "0.3"
tui = { version = "0.9", default-features = false, features = ["crossterm"] }
