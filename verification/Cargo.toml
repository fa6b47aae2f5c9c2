[package]
name = "osci_cli"
version = "0.1.0"
edition = "2021"
publish = false

[dependencies]
env_logger = "*"
failure = "*"
jenkins_api = "*"
log = "*"
serde = { version = "*", features = ["derive"] }
structopt = "*"
toml = "*"
xdg = "*"
