[package]
name = "rattan_core"
version = "0.1.0"
edition = "2021"
publish = false

[dependencies]
anyhow = "=1.0.104"
axum = "=0.7.9"
bitfield = "=0.20.0"
clap = { version = "=4.6.7", features = ["derive"] }
etherparse = "=0.15.0"
figment = { version = "=0.10.19", features = ["json", "toml"] }
humantime = "=2.4.0"
ipnet = { version = "=2.12.2", features = ["serde"] }
netem-trace = { version = "=0.5.0", features = ["full"] }
pcap-file = "=2.0.0"
rand = "=0.8.8"
rand_distr = "=0.4.3"
serde = { version = "=1.0.229", features = ["derive"] }
serde_json = "=1.0.154"
siphasher = "=1.0.4"
tokio = { version = "=1.54.1", features = ["macros", "net", "rt-multi-thread", "sync", "time"] }
toml = "=0.8.23"
