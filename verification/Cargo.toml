[package]
name = "kurtex_core"
version = "0.1.0"
edition = "2021"
publish = false

[dependencies]
anyhow = "1"
clap = "4"
deno_core = "*"
globwalk = "*"
hashbrown = "*"
log = "0.4"
nu-ansi-term = "*"
serde = { version = "1", features = ["derive"] }
tokio = { version = "1", features = ["rt-multi-thread", "macros"] }
tracing-subscriber = "0.3"
