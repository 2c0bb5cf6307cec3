[package]
name = "htmlmd"
version = "0.1.2"
edition = "2021"
publish = false

[dependencies]
regex = "1"
url = "2"
unicode-normalization = "0.1"
encoding_rs = "0.8"
sha2 = "0.10"
indexmap = { version = "2", features = ["serde"] }
scraper = "*"
ego-tree = "*"
markup5ever = "*"
htmd = "0.5"
html5ever = "*"
markup5ever_rcdom = "*"
once_cell = "1"
serde = { version = "1", features = ["derive"] }
serde_json = "1"
toml = "*"
figment = { version = "0.10", features = ["toml", "json", "env"] }
clap = { version = "4", features = ["derive"] }
dirs = "*"
glob = "0.3"
walkdir = "2"
tempfile = "3"
filetime = "0.2"
similar = "2"
rayon = "1"
thiserror = "*"
axum = "*"
tokio = { version = "1", features = ["rt-multi-thread", "macros", "net", "signal"] }
tracing = "0.1"
tracing-subscriber = "0.3"
