[package]
name = "pi_natives"
version = "0.1.0"
edition = "2021"
publish = false

[dependencies]
brush-builtins = "=0.1.0"
brush-core = "=0.4.0"
clap = { version = "=4.6.7", features = ["derive"] }
inferno = { version = "=0.12.8", default-features = false }
napi = { version = "=3.15.0", features = ["napi4", "tokio_rt"] }
napi-derive = "=3.6.13"
os_pipe = "=1.2.3"
parking_lot = "=0.12.5"
rayon = "=1.12.0"
smallvec = "=1.16.4"
tokio = { version = "=1.54.1", features = ["fs", "io-util", "macros", "rt", "sync", "time"] }
tokio-util = "=0.7.20"
