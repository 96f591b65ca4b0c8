[package]
name = "activity_archive"
version = "0.1.0"
edition = "2021"
publish = false

[dependencies]
atrium-api = "*"
atrium-xrpc-client = "*"
chrono = "*"
clap = { version = "*", features = ["derive"] }
dotenv = "*"
egg-mode = { version = "*", default-features = false, features = ["rustls"] }
querystring = "*"
reqwest = { version = "*", default-features = false, features = ["json", "rustls-tls"] }
serde = { version = "*", features = ["derive"] }
serde_json = "*"
serde_with = "*"
tokio = { version = "*", features = ["macros", "rt-multi-thread", "fs", "io-util", "time"] }
toml = "*"
