[package]
name = "tuilog"
version = "1.0.0"
edition = "2021"
publish = false

[dependencies]
adif = "=0.1.3"
anyhow = "=1.0.104"
chrono = "=0.4.45"
cursive = "=0.21.1"
cursive-aligned-view = "=0.7.0"
cursive_table_view = "=0.15.0"
homedir = "=0.3.6"
indexmap = "=1.9.3"
rusqlite = { version = "=0.40.2", features = ["bundled"] }
