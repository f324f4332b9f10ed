[package]
name = "webgrab"
version = "0.1.0"
edition = "2021"
publish = false

[dependencies]
chardetng = "=1.0.0"
chromiumoxide = "=0.9.1"
clap = { version = "=4.6.7", features = ["derive"] }
dom_smoothie = "=0.18.2"
encoding_rs = "=0.8.44"
futures = "=0.3.34"
htmd = "=0.5.6"
reqwest = "=0.13.5"
serde_json = "=1.0.154"
tempfile = "=3.27.0"
tiktoken-rs = "=0.12.1"
tokio = { version = "=1.54.1", features = ["full"] }
url = "=2.5.8"
