[package]
name = "webrtc_demo_server"
version = "0.1.0"
edition = "2021"
publish = false

[dependencies]
actix = "0.7"
actix-web = "0.7"
clap = "2"
env_logger = "0.5"
futures = "0.1"
log = "0.4"
rand = "0.5"
serde = "1"
serde_derive = "1"
serde_json = "1"
woothee = "*"
