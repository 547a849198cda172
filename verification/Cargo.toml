[package]
name = "civmods"
version = "0.1.0"
edition = "2021"
publish = false

[dependencies]
quick-xml = { version = "0.37", features = ["serialize"] }
serde = { version = "1", features = ["derive"] }
walkdir = "2"
dirs = "5"
sha2 = "0.10"
zip = { version = "2", default-features = false, features = ["deflate"] }
flate2 = "1"
tar = "0.4"
sevenz-rust = "0.6"
unrar = "0.5"
fs_extra = "1"
