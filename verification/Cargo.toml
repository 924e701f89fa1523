[package]
name = "declarch_core"
version = "0.1.0"
edition = "2021"
publish = false

[dependencies]
regex = "1"
kdl = "6"
shlex = "1"
chrono = "0.4"
colored = "*"
terminal_size = "*"
hostname = "*"
which = "*"
serde = { version = "1", features = ["derive"] }
serde_json = "1"
serde_yml = "*"
clap = { version = "4", features = ["derive"] }
clap_complete = "4"

[dev-dependencies]
tempfile = "3"
