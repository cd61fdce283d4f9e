[package]
name = "thanks_contributors"
version = "0.1.0"
edition = "2021"
publish = false

[dependencies]
chrono = "*"
clap = { version = "*", features = ["derive"] }
clap-verbosity-flag = "*"
dotenv = "*"
env_logger = "*"
log = "*"
napi = { version = "*", features = ["async"] }
napi-derive = "*"
reqwest = { version = "*", default-features = false, features = ["json"] }
serde = { version = "*", features = ["derive"] }
