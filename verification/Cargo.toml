[package]
name = "coapable"
version = "0.1.0"
edition = "2021"
publish = false

[dependencies]
coap-lite = "*"
rand = "0.9"
tokio = { version = "1", features = ["full"] }
bytes = "1"
dashmap = "*"
liboscore = "*"
coap-message = "*"
coap-message-implementations = "*"
thiserror = "*"
