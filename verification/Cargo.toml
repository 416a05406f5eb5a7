[package]
name = "gh_gl_sync"
version = "0.1.0"
edition = "2021"
publish = false

[dependencies]
git2 = { version = "=0.17.2", default-features = false }
sha256 = "=1.6.0"
uuid = { version = "=1.29.0", features = ["v4"] }
serde = { version = "=1.0.229", features = ["derive"] }
serde_yaml = "=0.9.34"
tokio = { version = "=1.54.1", features = ["rt-multi-thread", "macros", "time"] }
async-trait = "=0.1.92"
rouille = "=3.6.2"
octocrab = "=0.40.0"
gitlab = "=0.1905.0"
tokio-postgres = "0.7"
