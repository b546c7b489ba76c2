[package]
name = "pointer_events"
version = "0.1.0"
edition = "2021"
publish = false

[dependencies]
url = "2"
dioxus-core = "0.6"
futures-util = "0.3"
