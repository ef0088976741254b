[package]
name = "graph-node"
version = "0.19.2"
edition = "2021"
publish = false

[dependencies]
crossbeam-channel = "0.4"
env_logger = "0.7"
futures = { version = "0.3", features = ["compat"] }
git-testament = "0.1"
graphql-parser = "=0.2.3"
lazy_static = "1"
prometheus = "0.10"
structopt = "0.3"
tokio = { version = "0.2", features = ["full"] }
url = "=2.1.1"
