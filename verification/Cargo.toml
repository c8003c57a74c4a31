[package]
name = "haloobot"
version = "0.1.0"
edition = "2021"
publish = false

[dependencies]
anyhow = "1"
chrono = "0.4"
dashmap = "5"
dotenv = "0.15"
dptree = "0.3"
futures = "0.3"
google-calendar = "=0.10.0"
image = { version = "0.24", default-features = false, features = ["jpeg", "png", "webp"] }
itertools = "=0.10.5"
log = "0.4"
multimap = { version = "=0.8.3", default-features = false }
once_cell = "1"
pretty_env_logger = "0.4"
rand = "=0.8.8"
regex = "=1.13.1"
reqwest = { version = "0.11", features = ["json"] }
rusqlite = { version = "0.28", features = ["bundled"] }
scraper = "0.13"
serde = { version = "1", features = ["derive"] }
serde_json = "1"
takecell = "=0.1.1"
teloxide = { version = "=0.10.1", features = ["macros", "auto-send"] }
thiserror = "1"
tokio = { version = "1", features = ["rt-multi-thread", "macros", "sync", "time", "signal"] }
