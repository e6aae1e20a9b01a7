[package]
name = "novelsaga"
version = "0.1.0"
edition = "2021"
publish = false

[dependencies]
pangu = "*"
clap = { version = "*", features = ["derive"] }
config = "*"
directories = "*"
once_cell = "*"
path-absolutize = "*"
serde = { version = "*", features = ["derive"] }
tokio = { version = "*", features = ["io-std", "io-util", "rt", "macros", "sync"] }
tower-lsp = "*"
