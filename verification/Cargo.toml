[package]
name = "frontmatter-gen"
version = "0.0.6"
edition = "2021"
publish = false

[dependencies]
anyhow = "1"
clap = { version = "4", features = ["derive"] }
dtt = "*"
log = "0.4"
pulldown-cmark = "*"
serde = { version = "1", features = ["derive"] }
serde_json = "1"
serde_yml = "*"
tera = "1"
thiserror = "*"
tokio = { version = "1", features = ["fs", "macros", "rt-multi-thread", "sync"] }
toml = "0.8"
url = "2"
uuid = { version = "1", features = ["v4", "serde"] }
