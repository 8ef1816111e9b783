[package]
name = "wh"
version = "0.1.0"
edition = "2021"
publish = false

[dependencies]
globset = "=0.4.20"
ignore = "=0.4.33"
clap = { version = "=4.6.7", features = ["derive"] }
home = "=0.5.12"
atty = "=0.2.14"
whoami = "=1.6.1"
windows = { version = "=0.52.0", features = ["Win32_UI_Shell", "Win32_Foundation"] }

[dev-dependencies]
nom = "7"
