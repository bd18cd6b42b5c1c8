[package]
name = "logsync"
version = "0.1.0"
edition = "2021"
publish = false

[dependencies]
chrono = "=0.4.45"
strip-ansi-escapes = "=0.2.1"
crossterm = "0.28"
tui = "=0.19.0"

[dev-dependencies]
regex = "=1.13.1"
