[package]
name = "pr_dedupe"
version = "0.1.0"
edition = "2021"
publish = false

[dependencies]
anyhow = "*"
async-trait = "*"
candle-core = "*"
candle-nn = "*"
candle-transformers = "*"
clap = { version = "*", features = ["derive"] }
futures = "*"
hf-hub = { version = "*", default-features = false, features = ["tokio"] }
log = "*"
postgrest = "*"
pretty_env_logger = "*"
rayon = "*"
reqwest = { version = "*", default-features = false }
serde = { version = "*", features = ["derive"] }
serde_json = "*"
text-splitter = "*"
tokenizers = "*"
tokio = { version = "*", features = ["macros", "rt-multi-thread"] }
