[package]
name = "bounce_relay"
version = "0.1.0"
edition = "2021"
publish = false

[dependencies]
anyhow = "=1.0.104"
base64 = "=0.22.1"
clap = { version = "=4.6.7", features = ["derive"] }
config = { version = "=0.15.27", default-features = false, features = ["toml"] }
hmac = "=0.12.1"
mail-parser = "=0.11.9"
reqwest = { version = "=0.13.5", default-features = false }
sea-query = { version = "=0.32.7", features = ["with-time"] }
sea-query-binder = { version = "=0.7.0", features = ["sqlx-any", "with-time"] }
serde = { version = "=1.0.229", features = ["derive"] }
sha2 = "=0.10.9"
sqlx = { version = "=0.8.6", default-features = false, features = ["any", "runtime-tokio"] }
time = { version = "=0.3.55", features = ["formatting"] }
tokio = { version = "=1.53.2", features = ["macros", "rt-multi-thread", "io-std", "io-util", "time", "signal"] }
tracing = "=0.1.44"
tracing-subscriber = { version = "=0.3.23", features = ["env-filter", "fmt"] }

[dev-dependencies]
serde_json = "=1.0.151"
