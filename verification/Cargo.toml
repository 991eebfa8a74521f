[package]
name = "wickra-screener-core"
version = "0.1.1"
edition = "2021"
publish = false

[dependencies]
serde = { version = "1", features = ["derive"] }
serde_json = "1"
toml = "*"
thiserror = "*"
clap = { version = "4", features = ["derive"] }
rayon = "1"
wickra-backtest-core = "*"
wickra-core = "*"
wickra-data = "*"
wickra-exchange = "*"
