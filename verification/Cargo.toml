[package]
name = "osh"
version = "0.1.0"
edition = "2021"
publish = false

[dependencies]
console = "0.15"
log = "0.4"
log4rs = "1"
rustyline = "9"
rustyline-derive = "0.6"
serde = { version = "1", features = ["derive"] }
serde_yaml = "0.8"
shell-words = "1"
skim = "0.9"
