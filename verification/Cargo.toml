[package]
name = "yaml_seeder"
version = "0.1.0"
edition = "2021"
publish = false

[dependencies]
anyhow = "1"
bigdecimal = "0.4"
chrono = { version = "0.4", default-features = false, features = ["std", "clock"] }
clap = { version = "4", features = ["derive", "env"] }
serde = { version = "1", features = ["derive"] }
serde_json = "1"
serde_yaml = "0.9"
sqlx = { version = "0.8", default-features = false, features = ["mysql", "runtime-tokio", "chrono", "bigdecimal", "json"] }
tokio = { version = "1", features = ["macros", "rt-multi-thread"] }
tracing = "0.1"
tracing-subscriber = { version = "0.3", features = ["env-filter"] }
