[package]
name = "comic_catalog"
version = "0.1.0"
edition = "2021"
publish = false

[dependencies]
aho-corasick = "*"
serde = { version = "*", features = ["derive"] }
serde_json = "*"
select = "*"
reqwest = { version = "*", default-features = false }
tokio = { version = "*", features = ["rt-multi-thread", "macros"] }
indicatif = "*"
