[package]
name = "retread"
version = "0.1.0"
edition = "2021"
publish = false

[dependencies]
regex = "*"
moka = { version = "*", features = ["sync"] }
rayon = "*"
dap = "0.4.1-alpha1"
serde_json = "*"
glob = "*"
crossbeam = "*"
log = "*"
log-panics = "*"
