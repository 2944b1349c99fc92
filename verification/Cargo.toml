[package]
name = "circles"
version = "0.1.0"
edition = "2021"
publish = false

[dependencies]
rand = "0.8"
serde = { version = "1", features = ["derive"] }
serde_json = "1"
diesel = { version = "2", features = ["sqlite", "returning_clauses_for_sqlite_3_35", "time"] }
diesel_migrations = "2"
rust_xlsxwriter = "*"
include_dir = "0.7"
dunce = "1"
time = "0.3"
