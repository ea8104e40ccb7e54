[package]
name = "logfine"
version = "0.1.0"
edition = "2021"
publish = false

[dependencies]
anstyle = "*"
anyhow = "*"
chrono = "*"
clap = { version = "*", features = ["derive"] }
diesel = { version = "*", features = ["sqlite", "returning_clauses_for_sqlite_3_35"] }
dirs = "*"
edit = "*"
indexmap = "*"
inquire = "*"
serde = { version = "*", features = ["derive"] }
serde_json = "*"
strsim = "*"
toml = "*"
