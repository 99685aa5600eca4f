[package]
name = "serval-cli"
version = "0.5.0"
edition = "2021"
publish = false

[dependencies]
clap = { version = "4", features = ["derive", "env"] }
regex = "1"
reqwest = { version = "0.12", default-features = false, features = ["json"] }
serde = { version = "1", features = ["derive"] }
serde_json = "1"
serde_yml = "*"
thiserror = "*"
time = { version = "0.3", features = ["formatting", "parsing", "macros", "serde"] }
tokio = { version = "1", features = ["rt", "net", "time"] }
toml = "*"
