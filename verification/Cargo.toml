[package]
name = "brick_shell"
version = "0.1.0"
edition = "2021"
publish = false

[dependencies]
colored = "*"
dirs = "*"
os_pipe = "*"
rustyline = "*"
serde_json = "*"
strip-ansi-escapes = "*"
users = "*"
