[package]
name = "sys_monitor"
version = "0.1.0"
edition = "2021"
publish = false

[dependencies]
arboard = "*"
clap = { version = "*", features = ["derive"] }
crossterm = "*"
ratatui = "*"
sysinfo = "*"
