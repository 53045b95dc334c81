[package]
name = "winesmeeper"
version = "0.1.0"
edition = "2021"
publish = false

[dependencies]
rand = "0.9"
ratatui = "0.29"
crossterm = "0.28"
color-eyre = "0.6"
xmltree = "0.10"
