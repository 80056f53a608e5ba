[package]
name = "ocli"
version = "0.1.0"
edition = "2021"
publish = false

[dependencies]
regex = "=1.13.1"
percent-encoding = "=2.3.2"
chrono = { version = "=0.4.45", default-features = false, features = ["clock", "std"] }
clap = { version = "=4.6.7", features = ["derive"] }
clap_complete = "=4.6.11"
color-eyre = "=0.6.5"
directories = "=6.0.0"
gix = { version = "=0.90.0", default-features = false, features = ["sha1"] }
serde = { version = "=1.0.229", features = ["derive"] }
toml = "=1.1.8"
tracing = "=0.1.44"
tracing-subscriber = { version = "=0.3.23", features = ["env-filter"] }
yaml_serde = "=0.10.7"
open = "=5.4.5"
