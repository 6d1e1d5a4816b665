[package]
name = "pipe_exec_layer"
version = "0.1.0"
edition = "2021"
publish = false

[dependencies]
alloy-consensus = "*"
alloy-eips = "*"
alloy-primitives = "*"
alloy-trie = "*"
rayon = "*"
tokio = { version = "*", features = ["rt-multi-thread", "sync", "macros", "time"] }
once_cell = "*"
serde_json = "*"
tracing = "*"
