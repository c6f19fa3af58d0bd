[package]
name = "n3"
version = "0.1.0"
edition = "2021"
publish = false

[dependencies]
boring = "4"
clap = { version = "4", features = ["derive"] }
color-print = "0.3"
dashmap = "6"
futures = { version = "0.3", features = ["thread-pool"] }
log = "0.4"
mio = { version = "1", features = ["net", "os-poll"] }
num_cpus = "1"
pretty_env_logger = "0.5"
quiche = "0.24"
rand = "0.9"
thiserror = "2"
