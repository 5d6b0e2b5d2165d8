[package]
name = "hmmcli"
version = "0.1.0"
edition = "2021"
publish = false

[dependencies]
chrono = "0.4"
colored = "2"
csv = "1"
directories = "4"
dirs = "4"
fs2 = "0.4"
handlebars = "3"
human-panic = "1"
indicatif = "0.17"
itertools = "0.10"
lipsum = "*"
quick-csv = "0.1"
rand = "0.8"
regex = "1"
serde = { version = "1", features = ["derive"] }
serde_json = "1"
structopt = "0.3"
tempfile = "3"
termimad = "*"
textwrap = { version = "0.11", features = ["term_size"] }
toml = "0.5"
