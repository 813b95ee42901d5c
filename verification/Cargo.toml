[package]
name = "luapack"
version = "0.1.0"
edition = "2021"
publish = false

[dependencies]
glob = "0.3"
handlebars = "4"
serde_json = "1"
anyhow = "1"
clap = { version = "4", features = ["derive"] }
config = "0.13"
serde = { version = "1", features = ["derive"] }
