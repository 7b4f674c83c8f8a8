[package]
name = "phoenix_report"
version = "0.1.0"
edition = "2021"
publish = false

[dependencies]
anyhow = "1"
bytemuck = "1"
colored = "2"
phoenix-types = "0.1.5"
phoenix-v1 = "0.2.4"
serde_json = "1"
spl-token = "3"
