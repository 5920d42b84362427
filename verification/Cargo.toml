[package]
name = "openteam"
version = "0.1.0"
edition = "2021"
publish = false

[dependencies]
async-trait = "*"
axum = "*"
futures-core = "*"
jiff = { version = "*", features = ["serde"] }
rand = "0.10"
rand_chacha = "0.10"
reqwest = { version = "*", default-features = false, features = ["json"] }
rustix = { version = "*", features = ["fs"] }
schemars = "*"
serde = { version = "*", features = ["derive"] }
serde_json = "*"
thiserror = "*"
tokio = { version = "*", features = ["rt-multi-thread", "macros", "net", "sync", "time"] }
tracing = "*"
url = "*"
uuid = { version = "*", features = ["v7", "serde"] }
