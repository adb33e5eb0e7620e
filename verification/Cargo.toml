[package]
name = "memoria_derived"
version = "0.1.0"
edition = "2021"
publish = false

[dependencies]
sha2 = "0.10"
rusqlite = { version = "*", features = ["bundled"] }
rusqlite_migration = "*"
backon = "1"
tantivy = "*"
usearch = "2"
thiserror = "2"

[dev-dependencies]
tempfile = "3"
