[package]
name = "greppy"
version = "0.1.0"
edition = "2021"
publish = false

[dependencies]
sha2 = "=0.10.9"
serde = { version = "=1.0.229", features = ["derive"] }
serde_json = "=1.0.154"
memmap2 = "=0.9.12"
clap = { version = "=4.6.7", features = ["derive"] }
libc = "=0.2.191"
rayon = "=1.12.0"
toml_edit = "0.22"
