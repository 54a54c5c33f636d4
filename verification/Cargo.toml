[package]
name = "atlas_packer"
version = "0.1.0"
edition = "2021"
publish = false

[dependencies]
anyhow = "1"
binary_rw = "*"
clap = { version = "4", features = ["derive"] }
crunch = "*"
handlebars = "*"
image = { version = "*", default-features = false, features = ["png"] }
ron = "*"
serde = { version = "1", features = ["derive"] }
serde_json = "1"
