[package]
name = "rsst"
version = "0.1.0"
edition = "2021"
publish = false

[dependencies]
md5 = "=0.7.0"
rss = "=2.1.2"
serde = { version = "1", features = ["derive"] }
toml = "=1.1.7"
structopt = "=0.3.26"
html5ever = "=0.39.0"
markup5ever_rcdom = "=0.39.0"

[dev-dependencies]
serde_json = "1"
