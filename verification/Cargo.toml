[package]
name = "life_relay"
version = "0.1.0"
edition = "2021"
publish = false

[dependencies]
rand = "0.9"
tokio = { version = "1", features = ["rt-multi-thread", "macros", "sync", "time"] }
crossterm = "0.28"
clap = { version = "4", features = ["derive"] }
clap_derive = "4"
