[package]
name = "recall"
version = "0.1.0"
edition = "2021"
publish = false

[dependencies]
anyhow = "1"
chrono = "0.4"
clap = { version = "4", features = ["derive"] }
console = "0.15"
crossbeam-channel = "0.5"
dialoguer = "0.11"
directories = "5"
filetime = "0.2"
glob = "0.3"
indicatif = "0.17"
rayon = "1"
serde = { version = "1", features = ["derive"] }
toml = "0.8"
walkdir = "2"
winapi = { version = "0.3", features = ["combaseapi", "fileapi", "objbase", "vsbackup", "vss", "winerror", "winnt"] }
xxhash-rust = { version = "0.8", features = ["xxh3"] }
