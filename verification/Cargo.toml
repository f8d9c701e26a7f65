[package]
name = "gcn_agg"
version = "0.1.0"
edition = "2021"
publish = false

[dependencies]
clap = { version = "3", features = ["derive"] }
clap_complete = "3"
config = "0.13"
glob = "0.3"
serde = { version = "1", features = ["derive"] }
serde_json = "1"
ramulator_wrapper = "*"
