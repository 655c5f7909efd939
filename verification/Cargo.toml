[package]
name = "game_save_sync"
version = "0.1.0"
edition = "2021"
publish = false

[dependencies]
anyhow = "1"
clap = { version = "4", features = ["derive"] }
directories = "*"
inquire = "*"
relative-path = { version = "*", features = ["serde"] }
serde = { version = "1", features = ["derive"] }
time = { version = "0.3", features = ["serde", "serde-human-readable", "local-offset", "formatting", "parsing", "std"] }
toml = "*"
uuid = { version = "1", features = ["v4", "serde"] }
