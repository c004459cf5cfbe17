[package]
name = "tukituki"
version = "0.1.0"
edition = "2021"
publish = false

[dependencies]
nix = { version = "*", features = ["signal", "process"] }
chrono = "*"
shell-words = "*"
clap = { version = "*", features = ["derive", "env"] }
serde = { version = "*", features = ["derive"] }
serde_json = "*"
serde_yaml_ng = "*"
crossterm = "*"
ratatui = "*"
ansi-to-tui = "*"
notify = "*"
notify-debouncer-mini = "*"
ctrlc = "*"
tabwriter = "*"
tempfile = "*"
