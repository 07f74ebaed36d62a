[package]
name = "chev_shell"
version = "0.1.0"
edition = "2021"
publish = false

[dependencies]
which = "*"
tokio = { version = "*", features = ["rt-multi-thread", "macros", "process", "io-util", "time", "sync"] }
nix = { version = "*", features = ["signal", "process", "term"] }
libc = "*"
anyhow = "*"
dirs = "*"
serde = { version = "*", features = ["derive"] }
serde_json = "*"
