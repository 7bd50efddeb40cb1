[package]
name = "fetch_market_and_order_data"
version = "0.1.0"
edition = "2021"
publish = false

[dependencies]
chrono = "0.4"
serde_json = "1.0"
tungstenite = "0.10"
url = "2"
log = "0.4"
env_logger = "0.7"
structopt = "0.3"
