[package]
name = "pixi_init"
version = "0.1.0"
edition = "2021"
publish = false

[dependencies]
clap = { version = "4", features = ["derive"] }
console = "0.15"
miette = "5"
minijinja = "1"
pep508_rs = "0.2"
rattler_conda_types = "0.17"
rattler_installs_packages = { version = "0.5", default-features = false }
regex = "1"
serde = { version = "1", features = ["derive"] }
serde_yaml = "0.9"
tracing = "0.1"

[dev-dependencies]
pep440_rs = "*"
