[package]
name = "omniqueue"
version = "0.1.0"
edition = "2021"
publish = false

[dependencies]
async-trait = "=0.1.92"
bb8 = "=0.8.6"
futures-util = "=0.3.34"
google-cloud-googleapis = "=0.16.1"
google-cloud-pubsub = "=0.30.0"
redis = { version = "=1.8.0", features = ["tokio-comp"] }
serde = { version = "=1.0.229", features = ["derive"] }
serde_json = "=1.0.154"
svix-ksuid = "=0.10.0"
time = "=0.3.55"
tokio = { version = "=1.54.1", features = ["macros", "rt", "time"] }
tracing = "=0.1.44"
