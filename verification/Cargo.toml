[package]
name = "orchestration_event_streamer"
version = "0.1.0"
edition = "2021"
publish = false

[dependencies]
anyhow = "1"
async-trait = "0.1"
chrono = "0.4"
futures = "0.3"
log = "0.4"
prost-types = "0.13"
uuid = { version = "1", features = ["v4"] }
