[package]
name = "usi_resolver"
version = "0.1.0"
edition = "2021"
publish = false

[dependencies]
clap = { version = "=4.6.7", features = ["derive"] }
env_logger = "=0.11.11"
log = "=0.4.34"
mzdata = { version = "=0.67.3", default-features = false, features = ["mzml", "mgf", "miniz_oxide", "mzsignal", "nalgebra", "proxi"] }
serde = { version = "=1.0.229", features = ["derive"] }
serde_json = "=1.0.151"
