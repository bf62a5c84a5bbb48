[package]
name = "guess_who"
version = "0.1.0"
edition = "2021"
publish = false

[dependencies]
rand = "=0.8.8"
serde = { version = "1", features = ["derive"] }
serde_json = "1"
colored = "=2.2.0"
log = "0.4"
pretty_env_logger = "0.5"
tokio = { version = "1", features = ["macros", "rt-multi-thread"] }
teloxide = { version = "=0.12.2", features = ["macros", "rustls", "ctrlc_handler"], default-features = false }
dptree = "=0.3.0"
takecell = ">=0.1.0, <0.1.2"
