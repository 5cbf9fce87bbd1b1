[package]
name = "adrs-core"
version = "0.6.0"
edition = "2021"
publish = false

[dependencies]
regex = "=1.13.1"
minijinja = "=2.24.0"
pulldown-cmark = { version = "=0.13.6", default-features = false }
time = { version = "=0.3.55", features = ["parsing", "formatting", "macros"] }
fuzzy-matcher = "=0.3.7"
globset = "=0.4.21"
mdbook-lint-core = "=0.16.2"
mdbook-lint-rulesets = { version = "=0.16.2", default-features = false, features = ["adr"] }
serde = { version = "=1.0.229", features = ["derive"] }
serde_json = "=1.0.154"
serde_yaml_neo = "=0.11.0"
toml = "=1.1.8"
walkdir = "=2.5.0"
dirs = "=7.0.0"
gix-config = "=0.62.2"
gix-hash = { version = "=0.28.1", features = ["sha1"] }
bstr = "=1.13.1"
thiserror = "=2.0.21"
