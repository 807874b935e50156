[package]
name = "hk"
version = "2.0.0"
edition = "2021"
publish = false

[dependencies]
chrono = "=0.4.45"
console = "=0.16.6"
demand = "=2.4.1"
dirs = "=7.0.0"
ensembler = "=1.1.6"
eyre = "=0.6.14"
globset = "=0.4.21"
ignore = "=0.4.34"
indexmap = "=2.14.2"
itertools = "=0.15.0"
libc = "=0.2.191"
log = "=0.4.35"
pklr = "=5.2.3"
rmcp = { version = "=3.8.0", features = ["server", "transport-io"] }
schemars = "=1.2.3"
semver = "=1.0.28"
serde = { version = "=1.0.229", features = ["derive"] }
serde_json = { version = "=1.0.154", features = ["preserve_order"] }
serde_yaml = "=0.9.34"
shell-quote = "=0.8.0"
shell-words = "=1.1.1"
tempfile = "=3.27.0"
tokio = { version = "=1.54.1", features = ["full"] }
tokio-util = "=0.7.20"
toml = "=1.1.8"
url = "=2.5.8"
usage-rs = "=7.1.5"
xx = "=2.6.3"
