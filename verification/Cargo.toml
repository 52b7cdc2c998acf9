[package]
name = "school_substitution_plan_alert"
version = "0.1.0"
edition = "2021"
publish = false

[dependencies]
chrono = "=0.4.45"
levenshtein = "=1.0.5"
log = "=0.4.34"
lopdf = "=0.46.0"
prettytable-rs = { version = "=0.10.0", default-features = false }
reqwest = "=0.11.27"
serde = { version = "=1.0.229", features = ["derive"] }
serde_json = "=1.0.154"
serenity = "=0.10.10"
simple_logger = "=1.16.0"
tokio = { version = "=1.54.1", features = ["full"] }
toml = "=0.5.11"
uuid = { version = "=0.8.2", features = ["v4"] }
