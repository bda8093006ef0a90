[package]
name = "sims4modorganizer"
version = "0.1.0"
edition = "2021"
publish = false

[dependencies]
async-trait = "0.1"
boxy = "*"
chrono = "0.4"
clap = { version = "4", features = ["derive"] }
colored = "2"
dirs = "5"
inquire = "0.7"
itertools = "0.12"
opener = "*"
radix_trie = "0.2"
sea-orm = { version = "0.12", default-features = false, features = ["macros", "sqlx-sqlite", "runtime-tokio-rustls", "with-chrono"] }
sea-orm-migration = { version = "0.12", default-features = false, features = ["sqlx-sqlite", "runtime-tokio-rustls"] }
tokio = { version = "1", features = ["full"] }
tracing = "0.1"
tracing-subscriber = "0.3"
tracing-unwrap = "*"
url = "2"
xxhash-rust = { version = "0.8", features = ["xxh3"] }
