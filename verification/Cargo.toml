[package]
name = "hbuild"
version = "0.1.0"
edition = "2021"
publish = false

[dependencies]
ctrlc = "*"
dirs = "*"
git2 = { version = "*", default-features = false }
glob = "*"
hcl-rs = "*"
hk-parser = "*"
indexmap = "*"
lexopt = "*"
num_cpus = "*"
owo-colors = "*"
pkg-config = "*"
rayon = "*"
serde = { version = "*", features = ["derive"] }
serde_json = "*"
serde_yaml = "*"
toml = "*"
