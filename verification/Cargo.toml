[package]
name = "join_watch"
version = "0.1.0"
edition = "2021"
publish = false

[dependencies]
async-trait = "0.1"
config = { version = "0.13", default-features = false, features = ["toml", "json", "yaml", "ini"] }
crossbeam = "0.8"
log = "0.4"
pretty_env_logger = "0.4"
serde = { version = "1", features = ["derive"] }
serde_json = "1"
serenity = "0.11"
tokio = { version = "1", features = ["macros", "rt-multi-thread"] }
