[package]
name = "voicetime"
version = "0.1.0"
edition = "2021"
publish = false

[dependencies]
bincode = "0.9"
rand = "0.4"
tokio = "0.1"
tokio-io = "0.1"
bytes = "0.4"
futures = "0.1"
openal = "*"
argparse = "0.2"
chan = "0.1"
chan-signal = "0.3"
