[package]
name = "coloring"
version = "0.1.0"
edition = "2021"
publish = false

[dependencies]
html-escape = "=0.2.15"
anyhow = "*"
clap = { version = "*", features = ["derive"] }
console = "*"
dialoguer = "*"
serde = { version = "*", features = ["derive"] }
syn = { version = "*", features = ["full", "visit"] }
proc-macro2 = { version = "*", features = ["span-locations"] }
quote = "*"
