[package]
name = "skopje"
version = "0.1.0"
edition = "2021"
publish = false

[dependencies]
anyhow = "*"
async-trait = "*"
bimap = "*"
chrono = "*"
deadpool-postgres = "*"
futures = "*"
postgres-types = "*"
rayon = "*"
reqwest = { version = "*", default-features = false, features = ["json"] }
serde = { version = "*", features = ["derive"] }
serde_json = "*"
tokio = { version = "*", features = ["fs", "io-util", "macros", "rt", "sync"] }
tokio-postgres = "*"
zip = { version = "0.6", default-features = false, features = ["deflate"] }
