[package]
name = "microhop"
version = "0.2.0"
edition = "2021"
publish = false

[dependencies]
uuid = "=1.29.0"
fdt = "=0.1.5"
clap = "=4.6.7"
colored = "=3.1.1"
log = "=0.4.35"
walkdir = "=2.5.0"
kmoddep = "=0.1.5"
nix = { version = "=0.31.3", features = ["mount", "fs", "reboot", "process", "user", "kmod"] }
