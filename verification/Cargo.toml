[package]
name = "gatelogue"
version = "0.1.0"
edition = "2021"
publish = false

[dependencies]
alphanumeric-sort = "*"
arrayvec = { version = "*", features = ["serde"] }
indicatif = "*"
itertools = "*"
mediawiki = "*"
once_cell = "*"
petgraph = { version = "*", features = ["serde-1"] }
regex = "1"
reqwest = "*"
rmp-serde = "*"
serde = { version = "1", features = ["derive"] }
serde_json = "1"
smol_str = { version = "*", features = ["serde"] }
thiserror = "*"
tokio = { version = "1", features = ["rt-multi-thread", "macros"] }
ureq = "*"
