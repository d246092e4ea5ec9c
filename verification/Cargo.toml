[package]
name = "mint_cli"
version = "0.1.0"
edition = "2021"
publish = false

[dependencies]
bin_file = "=0.2.1"
indexmap = { version = "=2.14.2", features = ["serde"] }
serde = { version = "=1.0.229", features = ["derive"] }
serde_json = "=1.0.154"
serde_yaml = "0.9"
toml = "=1.1.8"
clap = { version = "=4.6.7", features = ["derive"] }
thiserror = "=2.0.21"
rayon = "=1.12.0"
comfy-table = { version = "=7.2.2", default-features = false }
calamine = "=0.37.0"
postgres = "=0.19.14"
ureq = { version = "=3.5.0", default-features = false }
percent-encoding = "=2.3.2"
