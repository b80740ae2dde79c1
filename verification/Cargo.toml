[package]
name = "linkify"
version = "0.1.0"
edition = "2021"
publish = false

[dependencies]
bcrypt = "0.8"
rand = "0.7"
semver = "0.11"
sha1 = "0.6"
rusqlite = { version = "0.24", features = ["bundled", "functions", "array"] }
r2d2 = "0.8"
r2d2_sqlite = "0.17"
clap = "2.33"
colored = "2"
log = "0.4"
simple_logger = "1"
rouille = "3"
rpassword = "5"
terminal_size = "0.1"
miniserde = "0.1"
