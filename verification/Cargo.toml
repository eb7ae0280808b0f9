[package]
name = "dodam_sql"
version = "0.1.0"
edition = "2021"
publish = false

[dependencies]
sqlparser = "=0.62.0"
rayon = "=1.12.0"
