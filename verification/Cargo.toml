[package]
name = "minefetch"
version = "0.1.0"
edition = "2021"
publish = false

[dependencies]
sha1 = "*"
rand = "*"
reqwest = { version = "*", default-features = false }
serde = { version = "*", features = ["derive"] }
serde_json = "*"
tokio = { version = "*", features = ["rt-multi-thread", "macros", "fs", "io-util", "io-std"] }
toml = "*"
console = "*"
indicatif = "*"
futures = "*"
libc = "*"
