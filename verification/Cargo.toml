[package]
name = "reconciliation_engine"
version = "0.1.0"
edition = "2021"
publish = false

[dependencies]
bigdecimal = "0.4"
config = { version = "*", default-features = false, features = ["toml"] }
dotenv = "*"
reqwest = { version = "*", default-features = false, features = ["json"] }
serde = { version = "*", features = ["derive"] }
sqlx = { version = "*", default-features = false, features = ["mysql", "runtime-tokio", "bigdecimal", "time"] }
tokio = { version = "*", features = ["full"] }
