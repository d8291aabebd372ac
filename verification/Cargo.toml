[package]
name = "hunk_diff"
version = "0.1.0"
edition = "2021"
publish = false

[dependencies]
anyhow = "1"
crossterm = "0.19"
diff = "0.1"
handlebars = "3"
serde_json = "1"
