[package]
name = "blobstore"
version = "0.1.0"
edition = "2021"
publish = false

[dependencies]
memmap2 = "*"
tempfile = "3"
hyper = { version = "0.14", features = ["full"] }
tokio = { version = "1", features = ["full"] }
headers = "0.3"
log = "0.4"
env_logger = "*"
structopt = "0.3"
failure = "0.1"
