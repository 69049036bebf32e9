[package]
name = "hardlight"
version = "4.0.0"
edition = "2021"
publish = false

[dependencies]
array-init = "2"
async-trait = "0.1"
bytecheck = "0.6"
flate2 = "1"
futures-util = "0.3"
hashbrown = "0.13"
indicatif = "0.17"
num_cpus = "1"
parking_lot = "0.12"
plotters = { version = "0.3", default-features = false, features = ["svg_backend", "line_series"] }
quote = "1"
rand = "0.8"
rayon = "1"
rcgen = "0.10"
rkyv = { version = "0.7", features = ["validation", "archive_le"] }
rkyv_derive = "0.7"
rustls-native-certs = "0.6"
syn = { version = "1", features = ["full"] }
tokio = { version = "1", features = ["full"] }
tokio-macros = "2"
tokio-rustls = { version = "0.23", features = ["dangerous_configuration"] }
tokio-tungstenite = { version = "0.18", features = ["rustls-tls-native-roots"] }
tracing = "0.1"
tracing-subscriber = "0.3"
version = "3"
