[package]
name = "kgdb-console-splitting-proxy"
version = "0.0.1"
edition = "2021"
publish = false

[dependencies]
libc = "0.2"
nix = { version = "0.30", features = ["fs", "net", "poll", "process", "signal", "socket", "term", "uio"] }
