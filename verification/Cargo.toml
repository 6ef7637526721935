[package]
name = "votesim"
version = "0.1.0"
edition = "2021"
publish = false

[dependencies]
arrow-array = "*"
arrow-schema = "*"
clap = { version = "*", features = ["derive"] }
meansd = "*"
ndarray = "*"
parquet = "*"
rand = "*"
rand_distr = "*"
serde = { version = "*", features = ["derive"] }
serde_json = "*"
toml = "*"
work-queue = "*"
