[package]
name = "tabel"
version = "0.1.0"
edition = "2021"
publish = false

[dependencies]
anyhow = "=1.0.104"
chrono = { version = "=0.4.45", features = ["serde"] }
dotenvy = "=0.15.7"
dptree = "=0.5.1"
log = "=0.4.34"
pretty_env_logger = "=0.5.0"
reqwest = { version = "=0.12.28", features = ["json"] }
rust_xlsxwriter = "=0.101.0"
serde = { version = "=1.0.229", features = ["derive"] }
# Not used by name: teloxide-core asks for takecell 0.1, and 0.1.2 needs a
# newer compiler than this crate is built with.
takecell = "=0.1.1"
teloxide = { version = "=0.17.0", features = ["webhooks-axum"] }
tokio = { version = "=1.54.1", features = ["macros", "rt-multi-thread"] }

[dev-dependencies]
zip = { version = "=9.1.0", default-features = false, features = ["deflate"] }
