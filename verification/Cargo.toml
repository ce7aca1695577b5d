[package]
name = "trace"
version = "0.1.0"
edition = "2021"
publish = false

[dependencies]
anyhow = "*"
argh = "*"
chrono = { version = "*", default-features = false, features = ["std"] }
directories = "*"
futures = { version = "*", default-features = false, features = ["std"] }
matrix-sdk = { version = "=0.18.0", default-features = false, features = ["sqlite"] }
rpassword = "*"
serde = { version = "*", features = ["derive"] }
serde_json = "*"
tokio = { version = "*", features = ["macros", "rt-multi-thread"] }
