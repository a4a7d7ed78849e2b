[package]
name = "librarian"
version = "0.1.0"
edition = "2021"
publish = false

[dependencies]
anyhow = "1"
color-eyre = "0.6"
crossterm = "0.28"
dotenv = "0.15"
futures = "0.3"
lofty = "0.22"
ratatui = "0.29"
serde = { version = "1", features = ["derive"] }
serde_json = "1"
sqlx = { version = "0.8", default-features = false, features = ["postgres", "runtime-tokio", "derive"] }
tokio = { version = "1", features = ["full"] }
walkdir = "2"
