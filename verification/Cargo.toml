[package]
name = "verylup"
version = "0.1.0"
edition = "2021"
publish = false

[dependencies]
anyhow = "*"
chrono = "*"
clap = { version = "*", features = ["derive"] }
clap_complete = "*"
console = "*"
directories = "*"
fern = "*"
log = "*"
reqwest = { version = "*", default-features = false, features = ["rustls-tls"] }
self-replace = "*"
serde = { version = "*", features = ["derive"] }
serde_json = "*"
tempfile = "*"
tokio = { version = "*", features = ["macros", "rt-multi-thread"] }
toml = "*"
zip = { version = "*", default-features = false, features = ["deflate"] }

[dev-dependencies]
semver = "*"
